//! The abstract syntax tree of a Zinc program, and its well-formedness.
//!
//! The parser produces exactly these shapes: an expression is a flat,
//! left-to-right chain of terms joined by operators; a term is an atom
//! followed by a suffix chain; statements carry expressions and nested
//! blocks.  Well-formedness records what the grammar guarantees about the
//! token texts stored in the tree: identifier fields hold identifier tokens,
//! number fields hold digit runs, and string fields hold a quote-delimited,
//! well-escaped literal.

use vstd::prelude::*;

use crate::escape::wf_escaped;
use crate::text::is_digit_char;
use crate::text::is_simple_ident;

verus! {

/// A binary operator of the expression grammar.
#[derive(Clone, Copy, Debug)]
pub enum BinOp {
    /// `|>`: feeds the left operand as the first argument of the call
    /// described by the right operand.
    Pipe,
    /// `+`: formatted concatenation.
    Concat,
    /// `==`
    Eq,
    /// `!=`
    Ne,
    /// `>`
    Gt,
    /// `<`
    Lt,
    /// `>=`
    Ge,
    /// `<=`
    Le,
}

/// The leading unit of a term.
#[derive(Debug)]
pub enum Atom {
    /// A bare call `name(args)`.
    Call { name: String, args: Vec<Expr> },
    /// An array literal `[items]`.
    Array { items: Vec<Expr> },
    /// A string literal; `raw` is its source text, delimiters included.
    StrLit { raw: String },
    /// A number literal; `text` is its source text.
    Number { text: String },
    /// A bare identifier.
    Ident { name: String },
    /// A parenthesized expression.
    Paren { inner: Box<Expr> },
}

/// One element of a suffix chain.
#[derive(Debug)]
pub enum Suffix {
    /// An indexing suffix `[index]`.
    Index { index: Expr },
    /// A member-call suffix `.method(args)`.
    Member { method: String, args: Vec<Expr> },
}

/// An atom with its suffix chain, applied left to right.
#[derive(Debug)]
pub struct Term {
    pub atom: Atom,
    pub suffixes: Vec<Suffix>,
}

/// One operator-and-term link of an expression chain.
#[derive(Debug)]
pub struct OpTerm {
    pub op: BinOp,
    pub term: Term,
}

/// A flat, left-to-right chain of terms joined by binary operators.
#[derive(Debug)]
pub struct Expr {
    pub first: Term,
    pub rest: Vec<OpTerm>,
}

/// A statement.
#[derive(Debug)]
pub enum Stmt {
    /// A bare expression statement.
    ExprStmt { expr: Expr },
    /// `let name = expr`.
    LetStmt { name: String, expr: Expr },
    /// `if cond { then } else { else }`, the alternative optional.
    IfStmt { cond: Expr, then_block: Block, else_block: Option<Block> },
    /// `loop { body }`.
    LoopStmt { body: Block },
    /// `break`.
    BreakStmt,
    /// `fn name(params) { body }`; only the body takes part in lowering.
    FnDef { body: Block },
}

/// A braced sequence of statements.
#[derive(Debug)]
pub struct Block {
    pub stmts: Vec<Stmt>,
}

/// A whole program: its statements in source order.
#[derive(Debug)]
pub struct Program {
    pub stmts: Vec<Stmt>,
}

/// A number token: a non-empty run of decimal digits.
pub open spec fn wf_number(s: Seq<char>) -> bool {
    &&& s.len() > 0
    &&& forall|i: int| 0 <= i < s.len() ==> is_digit_char(#[trigger] s[i])
}

/// A string literal token: quote delimiters around well-escaped content.
pub open spec fn wf_strlit(raw: Seq<char>) -> bool {
    &&& raw.len() >= 2
    &&& raw[0] == '"'
    &&& raw[raw.len() - 1] == '"'
    &&& wf_escaped(raw.subrange(1, raw.len() - 1))
}

pub open spec fn wf_atom(a: Atom) -> bool
    decreases a,
{
    match a {
        Atom::Call { name, args } => is_simple_ident(name@) && wf_exprs(args@),
        Atom::Array { items } => wf_exprs(items@),
        Atom::StrLit { raw } => wf_strlit(raw@),
        Atom::Number { text } => wf_number(text@),
        Atom::Ident { name } => is_simple_ident(name@),
        Atom::Paren { inner } => wf_expr(*inner),
    }
}

pub open spec fn wf_exprs(es: Seq<Expr>) -> bool
    decreases es,
{
    forall|i: int| 0 <= i < es.len() ==> wf_expr(#[trigger] es[i])
}

pub open spec fn wf_suffix(s: Suffix) -> bool
    decreases s,
{
    match s {
        Suffix::Index { index } => wf_expr(index),
        Suffix::Member { method, args } => is_simple_ident(method@) && wf_exprs(args@),
    }
}

pub open spec fn wf_term(t: Term) -> bool
    decreases t,
{
    &&& wf_atom(t.atom)
    &&& forall|i: int| 0 <= i < t.suffixes@.len() ==> wf_suffix(#[trigger] t.suffixes@[i])
}

pub open spec fn wf_expr(e: Expr) -> bool
    decreases e,
{
    &&& wf_term(e.first)
    &&& forall|i: int| 0 <= i < e.rest@.len() ==> wf_term(#[trigger] e.rest@[i].term)
}

pub open spec fn wf_stmt(s: Stmt) -> bool
    decreases s,
{
    match s {
        Stmt::ExprStmt { expr } => wf_expr(expr),
        Stmt::LetStmt { name, expr } => is_simple_ident(name@) && wf_expr(expr),
        Stmt::IfStmt { cond, then_block, else_block } => wf_expr(cond) && wf_block(then_block)
            && match else_block {
            Some(b) => wf_block(b),
            None => true,
        },
        Stmt::LoopStmt { body } => wf_block(body),
        Stmt::BreakStmt => true,
        Stmt::FnDef { body } => wf_block(body),
    }
}

pub open spec fn wf_block(b: Block) -> bool
    decreases b,
{
    forall|i: int| 0 <= i < b.stmts@.len() ==> wf_stmt(#[trigger] b.stmts@[i])
}

pub open spec fn wf_program(p: Program) -> bool {
    forall|i: int| 0 <= i < p.stmts@.len() ==> wf_stmt(#[trigger] p.stmts@[i])
}

} // verus!
