//! The syntactic grammar: tokens to the syntax tree, by recursive descent.
//!
//! The grammar, over the token kinds of the lexer:
//!
//! ```text
//! program   = statement* EOF
//! statement = "let" Ident "=" expr
//!           | "if" expr block ("else" block)?
//!           | "loop" block
//!           | "break"
//!           | "fn" Ident "(" params? ")" block
//!           | expr
//! block     = "{" statement* "}"
//! params    = Ident ("," Ident)*
//! expr      = term (op term)*            op = "|>" "+" "==" "!=" ">" "<" ">=" "<="
//! term      = atom suffix*
//! suffix    = "[" expr "]" | "." Ident "(" args? ")"
//! atom      = Ident "(" args? ")" | Ident | Number | Str
//!           | "[" args? "]" | "(" expr ")"
//! args      = expr ("," expr)*
//! ```
//!
//! Every parse function either returns the parsed node with the position
//! past it, or the index of the offending token (the token count for an
//! unexpected end of input).

use vstd::prelude::*;

use crate::ast::Atom;
use crate::ast::BinOp;
use crate::ast::Block;
use crate::ast::Expr;
use crate::ast::OpTerm;
use crate::ast::Program;
use crate::ast::Stmt;
use crate::ast::Suffix;
use crate::ast::Term;
use crate::ast::wf_block;
use crate::ast::wf_expr;
use crate::ast::wf_exprs;
use crate::ast::wf_program;
use crate::ast::wf_stmt;
use crate::ast::wf_suffix;
use crate::ast::wf_term;
use crate::diag::ZincError;
use crate::diag::is_syntax_error_for;
use crate::diag::syntax_error_at;
use crate::lexer::LexErr;
use crate::lexer::TokKind;
use crate::lexer::Token;
use crate::lexer::scan;
use crate::lexer::tokenize;
use crate::lexer::toks_view;
use crate::lexer::wf_token;
use crate::lexer::wf_tokens_texts;
use crate::lexer::ws_comments_only;
use crate::text::str_to_chars;

verus! {

/// The source text with a leading byte-order mark removed.
pub open spec fn strip_bom(s: Seq<char>) -> Seq<char> {
    if s.len() > 0 && s[0] == '\u{feff}' {
        s.skip(1)
    } else {
        s
    }
}

/// Whether a token kind opens one of the keyword statement forms; any other
/// leading token parses as an expression statement.
pub open spec fn stmt_starter(k: TokKind) -> bool {
    k is KwLet || k is KwIf || k is KwLoop || k is KwBreak || k is KwFn
}

/// Always true: names an intermediate parse boundary, so that the
/// existentials over boundaries in the parse relations carry a stable
/// trigger.
pub open spec fn boundary(m: int) -> bool {
    true
}

/// The parse relations: what it means for a node to be the parse of a token
/// range.  Tokens are at the specification level, as `scan` produces them:
/// kind, text, offset.  The relations mirror the descent exactly, including
/// its greed: a term ends only where no suffix can continue, a chain only
/// where no operator follows, and each statement form is keyed to its
/// leading token, so the descent's choices are forced.  Every successful
/// parse function returns a node standing in its relation.
pub open spec fn parses_atom(
    tts: Seq<(TokKind, Seq<char>, int)>,
    pos: int,
    a: Atom,
    end: int,
) -> bool
    decreases a,
{
    &&& 0 <= pos < tts.len()
    &&& match a {
        Atom::Call { name, args } => tts[pos].0 is Ident && name@ == tts[pos].1 && pos + 1
            < tts.len() && tts[pos + 1].0 is LParen && parses_elems(
            tts,
            pos + 2,
            args@,
            TokKind::RParen,
            end,
        ),
        Atom::Ident { name } => tts[pos].0 is Ident && name@ == tts[pos].1 && end == pos + 1 && (pos
            + 1 >= tts.len() || !(tts[pos + 1].0 is LParen)),
        Atom::Number { text } => tts[pos].0 is Number && text@ == tts[pos].1 && end == pos + 1,
        Atom::StrLit { raw } => tts[pos].0 is Str && raw@ == tts[pos].1 && end == pos + 1,
        Atom::Array { items } => tts[pos].0 is LBracket && parses_elems(
            tts,
            pos + 1,
            items@,
            TokKind::RBracket,
            end,
        ),
        Atom::Paren { inner } => tts[pos].0 is LParen && exists|m: int|
            #[trigger] boundary(m) && parses_expr(tts, pos + 1, *inner, m) && 0 <= m < tts.len()
                && tts[m].0 is RParen && end == m + 1,
    }
}

/// A comma-separated element list after its opening bracket, up to and
/// including the closing token of kind `term`.
pub open spec fn parses_elems(
    tts: Seq<(TokKind, Seq<char>, int)>,
    pos: int,
    items: Seq<Expr>,
    term: TokKind,
    end: int,
) -> bool
    decreases items, items.len() + 1,
{
    &&& 0 <= pos < tts.len()
    &&& if tts[pos].0 == term {
        items.len() == 0 && end == pos + 1
    } else {
        items.len() >= 1 && exists|m: int|
            #[trigger] boundary(m) && parses_elems_upto(tts, pos, items, items.len() as int, m) && 0
                <= m < tts.len() && tts[m].0 == term && end == m + 1
    }
}

/// The first `i` elements of the list, each after a comma except the first,
/// parsed from `q0` to `q`.
pub open spec fn parses_elems_upto(
    tts: Seq<(TokKind, Seq<char>, int)>,
    q0: int,
    items: Seq<Expr>,
    i: int,
    q: int,
) -> bool
    decreases items, i,
{
    if i <= 0 || i > items.len() {
        false
    } else if i == 1 {
        parses_expr(tts, q0, items[0], q)
    } else {
        exists|m: int|
            #[trigger] boundary(m) && parses_elems_upto(tts, q0, items, i - 1, m) && 0 <= m
                < tts.len() && tts[m].0 is Comma && parses_expr(tts, m + 1, items[i - 1], q)
    }
}

pub open spec fn parses_suffix(
    tts: Seq<(TokKind, Seq<char>, int)>,
    pos: int,
    sfx: Suffix,
    end: int,
) -> bool
    decreases sfx,
{
    &&& 0 <= pos < tts.len()
    &&& match sfx {
        Suffix::Index { index } => tts[pos].0 is LBracket && exists|m: int|
            #[trigger] boundary(m) && parses_expr(tts, pos + 1, index, m) && 0 <= m < tts.len()
                && tts[m].0 is RBracket && end == m + 1,
        Suffix::Member { method, args } => tts[pos].0 is Dot && pos + 2 < tts.len() && tts[pos
            + 1].0 is Ident && method@ == tts[pos + 1].1 && tts[pos + 2].0 is LParen
            && parses_elems(tts, pos + 3, args@, TokKind::RParen, end),
    }
}

/// The first `i` suffixes of the chain, parsed consecutively from `q0` to
/// `q`.
pub open spec fn parses_suffixes_upto(
    tts: Seq<(TokKind, Seq<char>, int)>,
    q0: int,
    sfx: Seq<Suffix>,
    i: int,
    q: int,
) -> bool
    decreases sfx, i,
{
    if i <= 0 {
        q == q0
    } else if i > sfx.len() {
        false
    } else {
        exists|m: int|
            #[trigger] boundary(m) && parses_suffixes_upto(tts, q0, sfx, i - 1, m) && parses_suffix(
                tts,
                m,
                sfx[i - 1],
                q,
            )
    }
}

/// No suffix can continue at `q`: the descent is greedy, so a term ends
/// only here.
pub open spec fn term_ended(tts: Seq<(TokKind, Seq<char>, int)>, q: int) -> bool {
    q >= tts.len() || (!(tts[q].0 is LBracket) && !(tts[q].0 is Dot))
}

pub open spec fn parses_term(
    tts: Seq<(TokKind, Seq<char>, int)>,
    pos: int,
    t: Term,
    end: int,
) -> bool
    decreases t,
{
    exists|m: int|
        #[trigger] boundary(m) && parses_atom(tts, pos, t.atom, m) && parses_suffixes_upto(
            tts,
            m,
            t.suffixes@,
            t.suffixes@.len() as int,
            end,
        ) && term_ended(tts, end)
}

/// The first `i` operator-and-term links of the chain, parsed consecutively
/// from `q0` to `q`.
pub open spec fn parses_links_upto(
    tts: Seq<(TokKind, Seq<char>, int)>,
    q0: int,
    rest: Seq<OpTerm>,
    i: int,
    q: int,
) -> bool
    decreases rest, i,
{
    if i <= 0 {
        q == q0
    } else if i > rest.len() {
        false
    } else {
        exists|m: int|
            #[trigger] boundary(m) && parses_links_upto(tts, q0, rest, i - 1, m) && 0 <= m
                < tts.len() && kind_binop(tts[m].0) == Some(rest[i - 1].op) && parses_term(
                tts,
                m + 1,
                rest[i - 1].term,
                q,
            )
    }
}

/// No operator follows at `q`: an expression chain ends only here.
pub open spec fn chain_ended(tts: Seq<(TokKind, Seq<char>, int)>, q: int) -> bool {
    q >= tts.len() || kind_binop(tts[q].0) is None
}

pub open spec fn parses_expr(
    tts: Seq<(TokKind, Seq<char>, int)>,
    pos: int,
    e: Expr,
    end: int,
) -> bool
    decreases e,
{
    exists|m: int|
        #[trigger] boundary(m) && parses_term(tts, pos, e.first, m) && parses_links_upto(
            tts,
            m,
            e.rest@,
            e.rest@.len() as int,
            end,
        ) && chain_ended(tts, end)
}

/// A parameter list after its opening parenthesis, up to and including the
/// closing parenthesis; parameters carry no content of their own.
pub open spec fn parses_params(tts: Seq<(TokKind, Seq<char>, int)>, pos: int, end: int) -> bool
    decreases tts.len() - pos,
{
    &&& 0 <= pos < tts.len()
    &&& if tts[pos].0 is RParen {
        end == pos + 1
    } else {
        tts[pos].0 is Ident && pos + 1 < tts.len() && ((tts[pos + 1].0 is RParen && end == pos + 2)
            || (tts[pos + 1].0 is Comma && pos + 2 < tts.len() && parses_params(tts, pos + 2, end)))
    }
}

pub open spec fn parses_stmt(
    tts: Seq<(TokKind, Seq<char>, int)>,
    pos: int,
    s: Stmt,
    end: int,
) -> bool
    decreases s,
{
    &&& 0 <= pos < tts.len()
    &&& match s {
        Stmt::LetStmt { name, expr } => tts[pos].0 is KwLet && pos + 2 < tts.len() && tts[pos
            + 1].0 is Ident && name@ == tts[pos + 1].1 && tts[pos + 2].0 is Assign && parses_expr(
            tts,
            pos + 3,
            expr,
            end,
        ),
        Stmt::IfStmt { cond, then_block, else_block } => tts[pos].0 is KwIf && exists|m1: int|
            #[trigger] boundary(m1) && parses_expr(tts, pos + 1, cond, m1) && exists|m2: int|
                #[trigger] boundary(m2) && parses_block(tts, m1, then_block, m2) && match else_block {
                    Some(eb) => m2 < tts.len() && tts[m2].0 is KwElse && parses_block(
                        tts,
                        m2 + 1,
                        eb,
                        end,
                    ),
                    None => end == m2 && (m2 >= tts.len() || !(tts[m2].0 is KwElse)),
                },
        Stmt::LoopStmt { body } => tts[pos].0 is KwLoop && parses_block(tts, pos + 1, body, end),
        Stmt::BreakStmt => tts[pos].0 is KwBreak && end == pos + 1,
        Stmt::FnDef { body } => tts[pos].0 is KwFn && pos + 2 < tts.len() && tts[pos
            + 1].0 is Ident && tts[pos + 2].0 is LParen && exists|m: int|
            #[trigger] boundary(m) && parses_params(tts, pos + 3, m) && parses_block(
                tts,
                m,
                body,
                end,
            ),
        Stmt::ExprStmt { expr } => !stmt_starter(tts[pos].0) && parses_expr(tts, pos, expr, end),
    }
}

/// The first `i` statements of the sequence, parsed consecutively from `q0`
/// to `q`.
pub open spec fn parses_stmts_upto(
    tts: Seq<(TokKind, Seq<char>, int)>,
    q0: int,
    ss: Seq<Stmt>,
    i: int,
    q: int,
) -> bool
    decreases ss, i,
{
    if i <= 0 {
        q == q0
    } else if i > ss.len() {
        false
    } else {
        exists|m: int|
            #[trigger] boundary(m) && parses_stmts_upto(tts, q0, ss, i - 1, m) && parses_stmt(
                tts,
                m,
                ss[i - 1],
                q,
            )
    }
}

pub open spec fn parses_block(
    tts: Seq<(TokKind, Seq<char>, int)>,
    pos: int,
    b: Block,
    end: int,
) -> bool
    decreases b,
{
    &&& 0 <= pos < tts.len()
    &&& tts[pos].0 is LBrace
    &&& exists|stop: int|
        #[trigger] boundary(stop) && parses_stmts_upto(
            tts,
            pos + 1,
            b.stmts@,
            b.stmts@.len() as int,
            stop,
        ) && 0 <= stop < tts.len() && tts[stop].0 is RBrace && end == stop + 1
}

/// A whole program: its statements parsed consecutively from the first
/// token to the end of the token sequence.
pub open spec fn parses_program(tts: Seq<(TokKind, Seq<char>, int)>, p: Program) -> bool {
    parses_stmts_upto(tts, 0, p.stmts@, p.stmts@.len() as int, tts.len() as int)
}

/// The position parser: the descent at the specification level, computing
/// for each production the position past its parse, or the index of the
/// offending token (the token count for an unexpected end of input).  These
/// functions mirror the executable parse functions branch for branch; each
/// executable function returns `Ok` exactly where its position parser does,
/// with the same end position, and `Err` with the same offending index.
/// The bound guards on positions returned by sub-parses only discharge
/// termination; the executable correspondence always satisfies them.
pub open spec fn sp_args(tts: Seq<(TokKind, Seq<char>, int)>, pos: int) -> Result<int, int>
    decreases tts.len() - pos, 3int,
{
    if pos < 0 || pos >= tts.len() {
        Err(pos)
    } else if tts[pos].0 is RParen {
        Ok(pos + 1)
    } else {
        match sp_expr(tts, pos) {
            Ok(m) => if pos < m <= tts.len() {
                sp_args_rest(tts, m)
            } else {
                Err(pos)
            },
            Err(at) => Err(at),
        }
    }
}

pub open spec fn sp_args_rest(tts: Seq<(TokKind, Seq<char>, int)>, p: int) -> Result<int, int>
    decreases tts.len() - p, 0int,
{
    if p < 0 || p >= tts.len() {
        Err(p)
    } else if tts[p].0 is RParen {
        Ok(p + 1)
    } else if tts[p].0 is Comma {
        match sp_expr(tts, p + 1) {
            Ok(m) => if p + 1 < m <= tts.len() {
                sp_args_rest(tts, m)
            } else {
                Err(p)
            },
            Err(at) => Err(at),
        }
    } else {
        Err(p)
    }
}

pub open spec fn sp_elems_rest(tts: Seq<(TokKind, Seq<char>, int)>, p: int) -> Result<int, int>
    decreases tts.len() - p, 0int,
{
    if p < 0 || p >= tts.len() {
        Err(p)
    } else if tts[p].0 is RBracket {
        Ok(p + 1)
    } else if tts[p].0 is Comma {
        match sp_expr(tts, p + 1) {
            Ok(m) => if p + 1 < m <= tts.len() {
                sp_elems_rest(tts, m)
            } else {
                Err(p)
            },
            Err(at) => Err(at),
        }
    } else {
        Err(p)
    }
}

pub open spec fn sp_atom(tts: Seq<(TokKind, Seq<char>, int)>, pos: int) -> Result<int, int>
    decreases tts.len() - pos, 0int,
{
    if pos < 0 || pos >= tts.len() {
        Err(pos)
    } else {
        match tts[pos].0 {
            TokKind::Ident => if pos + 1 < tts.len() && tts[pos + 1].0 is LParen {
                sp_args(tts, pos + 2)
            } else {
                Ok(pos + 1)
            },
            TokKind::Number => Ok(pos + 1),
            TokKind::Str => Ok(pos + 1),
            TokKind::LBracket => {
                if pos + 1 < tts.len() && tts[pos + 1].0 is RBracket {
                    Ok(pos + 2)
                } else {
                    match sp_expr(tts, pos + 1) {
                        Ok(m) => if pos + 1 < m <= tts.len() {
                            sp_elems_rest(tts, m)
                        } else {
                            Err(pos)
                        },
                        Err(at) => Err(at),
                    }
                }
            },
            TokKind::LParen => {
                match sp_expr(tts, pos + 1) {
                    Ok(m) => if pos + 1 < m <= tts.len() {
                        if m < tts.len() && tts[m].0 is RParen {
                            Ok(m + 1)
                        } else {
                            Err(m)
                        }
                    } else {
                        Err(pos)
                    },
                    Err(at) => Err(at),
                }
            },
            _ => Err(pos),
        }
    }
}

pub open spec fn sp_suffixes(tts: Seq<(TokKind, Seq<char>, int)>, p: int) -> Result<int, int>
    decreases tts.len() - p, 0int,
{
    if p < 0 || p >= tts.len() {
        Ok(p)
    } else {
        match tts[p].0 {
            TokKind::LBracket => {
                match sp_expr(tts, p + 1) {
                    Ok(m) => if p + 1 < m <= tts.len() {
                        if m < tts.len() && tts[m].0 is RBracket {
                            sp_suffixes(tts, m + 1)
                        } else {
                            Err(m)
                        }
                    } else {
                        Err(p)
                    },
                    Err(at) => Err(at),
                }
            },
            TokKind::Dot => {
                if p + 1 >= tts.len() {
                    Err(tts.len() as int)
                } else if !(tts[p + 1].0 is Ident) {
                    Err(p + 1)
                } else if p + 2 >= tts.len() {
                    Err(tts.len() as int)
                } else if !(tts[p + 2].0 is LParen) {
                    Err(p + 2)
                } else {
                    match sp_args(tts, p + 3) {
                        Ok(m) => if p < m <= tts.len() {
                            sp_suffixes(tts, m)
                        } else {
                            Err(p)
                        },
                        Err(at) => Err(at),
                    }
                }
            },
            _ => Ok(p),
        }
    }
}

pub open spec fn sp_term(tts: Seq<(TokKind, Seq<char>, int)>, pos: int) -> Result<int, int>
    decreases tts.len() - pos, 1int,
{
    match sp_atom(tts, pos) {
        Ok(m) => if pos < m <= tts.len() {
            sp_suffixes(tts, m)
        } else {
            Err(pos)
        },
        Err(at) => Err(at),
    }
}

pub open spec fn sp_chain(tts: Seq<(TokKind, Seq<char>, int)>, p: int) -> Result<int, int>
    decreases tts.len() - p, 0int,
{
    if p < 0 || p >= tts.len() {
        Ok(p)
    } else {
        match kind_binop(tts[p].0) {
            Some(_) => match sp_term(tts, p + 1) {
                Ok(m) => if p + 1 < m <= tts.len() {
                    sp_chain(tts, m)
                } else {
                    Err(p)
                },
                Err(at) => Err(at),
            },
            None => Ok(p),
        }
    }
}

pub open spec fn sp_expr(tts: Seq<(TokKind, Seq<char>, int)>, pos: int) -> Result<int, int>
    decreases tts.len() - pos, 2int,
{
    match sp_term(tts, pos) {
        Ok(m) => if pos < m <= tts.len() {
            sp_chain(tts, m)
        } else {
            Err(pos)
        },
        Err(at) => Err(at),
    }
}

pub open spec fn sp_params(tts: Seq<(TokKind, Seq<char>, int)>, pos: int) -> Result<int, int>
    decreases tts.len() - pos, 1int,
{
    if pos < 0 || pos >= tts.len() {
        Err(pos)
    } else if tts[pos].0 is RParen {
        Ok(pos + 1)
    } else {
        sp_params_list(tts, pos)
    }
}

pub open spec fn sp_params_list(tts: Seq<(TokKind, Seq<char>, int)>, p: int) -> Result<int, int>
    decreases tts.len() - p, 0int,
{
    if p < 0 || p >= tts.len() {
        Err(p)
    } else if !(tts[p].0 is Ident) {
        Err(p)
    } else if p + 1 >= tts.len() {
        Err(tts.len() as int)
    } else if tts[p + 1].0 is RParen {
        Ok(p + 2)
    } else if tts[p + 1].0 is Comma {
        if p + 2 >= tts.len() {
            Err(tts.len() as int)
        } else {
            sp_params_list(tts, p + 2)
        }
    } else {
        Err(p + 1)
    }
}

pub open spec fn sp_stmt(tts: Seq<(TokKind, Seq<char>, int)>, pos: int) -> Result<int, int>
    decreases tts.len() - pos, 3int,
{
    if pos < 0 || pos >= tts.len() {
        Err(pos)
    } else {
        match tts[pos].0 {
            TokKind::KwLet => {
                if pos + 1 >= tts.len() {
                    Err(tts.len() as int)
                } else if !(tts[pos + 1].0 is Ident) {
                    Err(pos + 1)
                } else if pos + 2 >= tts.len() {
                    Err(tts.len() as int)
                } else if !(tts[pos + 2].0 is Assign) {
                    Err(pos + 2)
                } else {
                    sp_expr(tts, pos + 3)
                }
            },
            TokKind::KwIf => {
                match sp_expr(tts, pos + 1) {
                    Ok(m1) => if pos + 1 < m1 <= tts.len() {
                        match sp_block(tts, m1) {
                            Ok(m2) => if m1 < m2 <= tts.len() {
                                if m2 < tts.len() && tts[m2].0 is KwElse {
                                    sp_block(tts, m2 + 1)
                                } else {
                                    Ok(m2)
                                }
                            } else {
                                Err(m1)
                            },
                            Err(at) => Err(at),
                        }
                    } else {
                        Err(pos)
                    },
                    Err(at) => Err(at),
                }
            },
            TokKind::KwLoop => sp_block(tts, pos + 1),
            TokKind::KwBreak => Ok(pos + 1),
            TokKind::KwFn => {
                if pos + 1 >= tts.len() {
                    Err(tts.len() as int)
                } else if !(tts[pos + 1].0 is Ident) {
                    Err(pos + 1)
                } else if pos + 2 >= tts.len() {
                    Err(tts.len() as int)
                } else if !(tts[pos + 2].0 is LParen) {
                    Err(pos + 2)
                } else {
                    match sp_params(tts, pos + 3) {
                        Ok(m) => if pos < m <= tts.len() {
                            sp_block(tts, m)
                        } else {
                            Err(pos)
                        },
                        Err(at) => Err(at),
                    }
                }
            },
            _ => sp_expr(tts, pos),
        }
    }
}

pub open spec fn sp_block(tts: Seq<(TokKind, Seq<char>, int)>, pos: int) -> Result<int, int>
    decreases tts.len() - pos, 5int,
{
    if pos < 0 || pos >= tts.len() {
        Err(pos)
    } else if !(tts[pos].0 is LBrace) {
        Err(pos)
    } else {
        sp_block_stmts(tts, pos + 1)
    }
}

pub open spec fn sp_block_stmts(tts: Seq<(TokKind, Seq<char>, int)>, p: int) -> Result<int, int>
    decreases tts.len() - p, 4int,
{
    if p < 0 || p >= tts.len() {
        Err(tts.len() as int)
    } else if tts[p].0 is RBrace {
        Ok(p + 1)
    } else {
        match sp_stmt(tts, p) {
            Ok(m) => if p < m <= tts.len() {
                sp_block_stmts(tts, m)
            } else {
                Err(p)
            },
            Err(at) => Err(at),
        }
    }
}

pub open spec fn sp_prog_stmts(tts: Seq<(TokKind, Seq<char>, int)>, p: int) -> Result<int, int>
    decreases tts.len() - p, 4int,
{
    if p < 0 || p >= tts.len() {
        Ok(tts.len() as int)
    } else {
        match sp_stmt(tts, p) {
            Ok(m) => if p < m <= tts.len() {
                sp_prog_stmts(tts, m)
            } else {
                Err(p)
            },
            Err(at) => Err(at),
        }
    }
}

/// The whole token sequence as a program: the position past the last
/// statement (the token count) on success, or the first offending token
/// index.
pub open spec fn sp_program(tts: Seq<(TokKind, Seq<char>, int)>) -> Result<int, int> {
    sp_prog_stmts(tts, 0)
}

/// The prefix relations look only at the first `i` elements, so extending
/// the sequence does not disturb them.
proof fn lemma_links_upto_push(
    tts: Seq<(TokKind, Seq<char>, int)>,
    q0: int,
    rest: Seq<OpTerm>,
    x: OpTerm,
    i: int,
    q: int,
)
    requires
        i <= rest.len(),
    ensures
        parses_links_upto(tts, q0, rest.push(x), i, q) == parses_links_upto(tts, q0, rest, i, q),
    decreases i,
{
    if i > 0 {
        assert(rest.push(x)[i - 1] == rest[i - 1]);
        if parses_links_upto(tts, q0, rest.push(x), i, q) {
            let m = choose|m: int|
                #[trigger] boundary(m) && parses_links_upto(tts, q0, rest.push(x), i - 1, m) && 0
                    <= m < tts.len() && kind_binop(tts[m].0) == Some(rest.push(x)[i - 1].op)
                    && parses_term(tts, m + 1, rest.push(x)[i - 1].term, q);
            lemma_links_upto_push(tts, q0, rest, x, i - 1, m);
            assert(parses_links_upto(tts, q0, rest, i, q));
        }
        if parses_links_upto(tts, q0, rest, i, q) {
            let m = choose|m: int|
                #[trigger] boundary(m) && parses_links_upto(tts, q0, rest, i - 1, m) && 0 <= m
                    < tts.len() && kind_binop(tts[m].0) == Some(rest[i - 1].op) && parses_term(
                    tts,
                    m + 1,
                    rest[i - 1].term,
                    q,
                );
            lemma_links_upto_push(tts, q0, rest, x, i - 1, m);
            assert(parses_links_upto(tts, q0, rest.push(x), i, q));
        }
    }
}

proof fn lemma_suffixes_upto_push(
    tts: Seq<(TokKind, Seq<char>, int)>,
    q0: int,
    sfx: Seq<Suffix>,
    x: Suffix,
    i: int,
    q: int,
)
    requires
        i <= sfx.len(),
    ensures
        parses_suffixes_upto(tts, q0, sfx.push(x), i, q) == parses_suffixes_upto(tts, q0, sfx, i, q),
    decreases i,
{
    if i > 0 {
        assert(sfx.push(x)[i - 1] == sfx[i - 1]);
        if parses_suffixes_upto(tts, q0, sfx.push(x), i, q) {
            let m = choose|m: int|
                #[trigger] boundary(m) && parses_suffixes_upto(tts, q0, sfx.push(x), i - 1, m)
                    && parses_suffix(tts, m, sfx.push(x)[i - 1], q);
            lemma_suffixes_upto_push(tts, q0, sfx, x, i - 1, m);
            assert(parses_suffixes_upto(tts, q0, sfx, i, q));
        }
        if parses_suffixes_upto(tts, q0, sfx, i, q) {
            let m = choose|m: int|
                #[trigger] boundary(m) && parses_suffixes_upto(tts, q0, sfx, i - 1, m)
                    && parses_suffix(tts, m, sfx[i - 1], q);
            lemma_suffixes_upto_push(tts, q0, sfx, x, i - 1, m);
            assert(parses_suffixes_upto(tts, q0, sfx.push(x), i, q));
        }
    }
}

proof fn lemma_elems_upto_push(
    tts: Seq<(TokKind, Seq<char>, int)>,
    q0: int,
    items: Seq<Expr>,
    x: Expr,
    i: int,
    q: int,
)
    requires
        i <= items.len(),
    ensures
        parses_elems_upto(tts, q0, items.push(x), i, q) == parses_elems_upto(tts, q0, items, i, q),
    decreases i,
{
    if i > 1 {
        assert(items.push(x)[i - 1] == items[i - 1]);
        if parses_elems_upto(tts, q0, items.push(x), i, q) {
            let m = choose|m: int|
                #[trigger] boundary(m) && parses_elems_upto(tts, q0, items.push(x), i - 1, m) && 0
                    <= m < tts.len() && tts[m].0 is Comma && parses_expr(
                    tts,
                    m + 1,
                    items.push(x)[i - 1],
                    q,
                );
            lemma_elems_upto_push(tts, q0, items, x, i - 1, m);
            assert(parses_elems_upto(tts, q0, items, i, q));
        }
        if parses_elems_upto(tts, q0, items, i, q) {
            let m = choose|m: int|
                #[trigger] boundary(m) && parses_elems_upto(tts, q0, items, i - 1, m) && 0 <= m
                    < tts.len() && tts[m].0 is Comma && parses_expr(tts, m + 1, items[i - 1], q);
            lemma_elems_upto_push(tts, q0, items, x, i - 1, m);
            assert(parses_elems_upto(tts, q0, items.push(x), i, q));
        }
    } else if i == 1 {
        assert(items.push(x)[0] == items[0]);
    }
}

proof fn lemma_stmts_upto_push(
    tts: Seq<(TokKind, Seq<char>, int)>,
    q0: int,
    ss: Seq<Stmt>,
    x: Stmt,
    i: int,
    q: int,
)
    requires
        i <= ss.len(),
    ensures
        parses_stmts_upto(tts, q0, ss.push(x), i, q) == parses_stmts_upto(tts, q0, ss, i, q),
    decreases i,
{
    if i > 0 {
        assert(ss.push(x)[i - 1] == ss[i - 1]);
        if parses_stmts_upto(tts, q0, ss.push(x), i, q) {
            let m = choose|m: int|
                #[trigger] boundary(m) && parses_stmts_upto(tts, q0, ss.push(x), i - 1, m)
                    && parses_stmt(tts, m, ss.push(x)[i - 1], q);
            lemma_stmts_upto_push(tts, q0, ss, x, i - 1, m);
            assert(parses_stmts_upto(tts, q0, ss, i, q));
        }
        if parses_stmts_upto(tts, q0, ss, i, q) {
            let m = choose|m: int|
                #[trigger] boundary(m) && parses_stmts_upto(tts, q0, ss, i - 1, m) && parses_stmt(
                    tts,
                    m,
                    ss[i - 1],
                    q,
                );
            lemma_stmts_upto_push(tts, q0, ss, x, i - 1, m);
            assert(parses_stmts_upto(tts, q0, ss.push(x), i, q));
        }
    }
}

/// The binary operator of an operator token kind.
pub open spec fn kind_binop(k: TokKind) -> Option<BinOp> {
    match k {
        TokKind::Pipe => Some(BinOp::Pipe),
        TokKind::Plus => Some(BinOp::Concat),
        TokKind::EqEq => Some(BinOp::Eq),
        TokKind::Ne => Some(BinOp::Ne),
        TokKind::Ge => Some(BinOp::Ge),
        TokKind::Le => Some(BinOp::Le),
        TokKind::Gt => Some(BinOp::Gt),
        TokKind::Lt => Some(BinOp::Lt),
        _ => None,
    }
}

fn binop_of(k: TokKind) -> (r: Option<BinOp>)
    ensures
        r == kind_binop(k),
{
    match k {
        TokKind::Pipe => Some(BinOp::Pipe),
        TokKind::Plus => Some(BinOp::Concat),
        TokKind::EqEq => Some(BinOp::Eq),
        TokKind::Ne => Some(BinOp::Ne),
        TokKind::Ge => Some(BinOp::Ge),
        TokKind::Le => Some(BinOp::Le),
        TokKind::Gt => Some(BinOp::Gt),
        TokKind::Lt => Some(BinOp::Lt),
        _ => None,
    }
}

/// Parses an argument list after its opening parenthesis; consumes the
/// closing parenthesis.
fn parse_args(toks: &Vec<Token>, pos: usize) -> (r: Result<(Vec<Expr>, usize), usize>)
    requires
        wf_tokens_texts(toks@),
        pos <= toks@.len(),
    ensures
        match r {
            Ok((args, p2)) => pos < p2 <= toks@.len() && wf_exprs(args@) && parses_elems(
                toks_view(toks@),
                pos as int,
                args@,
                TokKind::RParen,
                p2 as int,
            ) && sp_args(toks_view(toks@), pos as int) == Ok::<int, int>(p2 as int),
            Err(at) => at <= toks@.len() && sp_args(toks_view(toks@), pos as int) == Err::<
                int,
                int,
            >(at as int),
        },
    decreases toks@.len() - pos, 3int,
{
    let ghost tv = toks_view(toks@);
    let n = toks.len();
    if pos >= n {
        return Err(pos);
    }
    let mut args: Vec<Expr> = Vec::new();
    if let TokKind::RParen = toks[pos].kind {
        proof {
            assert(parses_elems(tv, pos as int, args@, TokKind::RParen, pos + 1));
        }
        return Ok((args, pos + 1));
    }
    let mut p: usize;
    match parse_expr(toks, pos) {
        Ok((e, p2)) => {
            args.push(e);
            p = p2;
            proof {
                assert(args@[0] == e);
                assert(parses_elems_upto(tv, pos as int, args@, 1, p as int));
                assert(sp_args(tv, pos as int) == sp_args_rest(tv, p as int));
            }
        },
        Err(at) => {
            proof {
                assert(sp_args(tv, pos as int) == Err::<int, int>(at as int));
            }
            return Err(at);
        },
    }
    loop
        invariant
            wf_tokens_texts(toks@),
            tv == toks_view(toks@),
            n == toks@.len(),
            pos < p <= n,
            wf_exprs(args@),
            args@.len() >= 1,
            !(tv[pos as int].0 is RParen),
            parses_elems_upto(tv, pos as int, args@, args@.len() as int, p as int),
            sp_args(tv, pos as int) == sp_args_rest(tv, p as int),
        decreases n - p,
    {
        if p >= n {
            return Err(p);
        }
        match toks[p].kind {
            TokKind::RParen => {
                proof {
                    assert(boundary(p as int));
                    assert(parses_elems(tv, pos as int, args@, TokKind::RParen, p + 1));
                    assert(sp_args_rest(tv, p as int) == Ok::<int, int>(p + 1));
                }
                return Ok((args, p + 1));
            },
            TokKind::Comma => {
                match parse_expr(toks, p + 1) {
                    Ok((e, p2)) => {
                        let ghost args0 = args@;
                        let ghost pold = p as int;
                        args.push(e);
                        p = p2;
                        proof {
                            lemma_elems_upto_push(
                                tv,
                                pos as int,
                                args0,
                                e,
                                args0.len() as int,
                                pold,
                            );
                            assert(boundary(pold));
                            assert(args@[args@.len() - 1] == e);
                            assert(parses_elems_upto(
                                tv,
                                pos as int,
                                args@,
                                args@.len() as int,
                                p as int,
                            ));
                            assert(sp_args_rest(tv, pold) == sp_args_rest(tv, p as int));
                        }
                    },
                    Err(at) => {
                        proof {
                            assert(sp_args_rest(tv, p as int) == Err::<int, int>(at as int));
                        }
                        return Err(at);
                    },
                }
            },
            _ => {
                return Err(p);
            },
        }
    }
}

/// Parses one atom.
fn parse_atom(toks: &Vec<Token>, pos: usize) -> (r: Result<(Atom, usize), usize>)
    requires
        wf_tokens_texts(toks@),
        pos <= toks@.len(),
    ensures
        match r {
            Ok((a, p2)) => pos < p2 <= toks@.len() && crate::ast::wf_atom(a) && parses_atom(
                toks_view(toks@),
                pos as int,
                a,
                p2 as int,
            ) && sp_atom(toks_view(toks@), pos as int) == Ok::<int, int>(p2 as int),
            Err(at) => at <= toks@.len() && sp_atom(toks_view(toks@), pos as int) == Err::<
                int,
                int,
            >(at as int),
        },
    decreases toks@.len() - pos, 0int,
{
    let ghost tv = toks_view(toks@);
    let n = toks.len();
    if pos >= n {
        return Err(pos);
    }
    match toks[pos].kind {
        TokKind::Ident => {
            let name = toks[pos].text.clone();
            let is_call = pos + 1 < n && (match toks[pos + 1].kind {
                TokKind::LParen => true,
                _ => false,
            });
            if is_call {
                match parse_args(toks, pos + 2) {
                    Ok((args, p2)) => {
                        let a = Atom::Call { name, args };
                        proof {
                            assert(parses_atom(tv, pos as int, a, p2 as int));
                            assert(sp_atom(tv, pos as int) == Ok::<int, int>(p2 as int));
                        }
                        Ok((a, p2))
                    },
                    Err(at) => {
                        proof {
                            assert(sp_atom(tv, pos as int) == Err::<int, int>(at as int));
                        }
                        Err(at)
                    },
                }
            } else {
                let a = Atom::Ident { name };
                proof {
                    assert(parses_atom(tv, pos as int, a, pos + 1));
                    assert(sp_atom(tv, pos as int) == Ok::<int, int>(pos + 1));
                }
                Ok((a, pos + 1))
            }
        },
        TokKind::Number => {
            proof {
                assert(sp_atom(tv, pos as int) == Ok::<int, int>(pos + 1));
            }
            Ok((Atom::Number { text: toks[pos].text.clone() }, pos + 1))
        },
        TokKind::Str => {
            proof {
                assert(sp_atom(tv, pos as int) == Ok::<int, int>(pos + 1));
            }
            Ok((Atom::StrLit { raw: toks[pos].text.clone() }, pos + 1))
        },
        TokKind::LBracket => {
            let mut items: Vec<Expr> = Vec::new();
            if pos + 1 < n {
                if let TokKind::RBracket = toks[pos + 1].kind {
                    let a = Atom::Array { items };
                    proof {
                        assert(parses_elems(tv, pos + 1, items@, TokKind::RBracket, pos + 2));
                        assert(parses_atom(tv, pos as int, a, pos + 2));
                        assert(sp_atom(tv, pos as int) == Ok::<int, int>(pos + 2));
                    }
                    return Ok((a, pos + 2));
                }
            }
            let mut p: usize;
            match parse_expr(toks, pos + 1) {
                Ok((e, p2)) => {
                    items.push(e);
                    p = p2;
                    proof {
                        assert(items@[0] == e);
                        assert(parses_elems_upto(tv, pos + 1, items@, 1, p as int));
                        assert(sp_atom(tv, pos as int) == sp_elems_rest(tv, p as int));
                    }
                },
                Err(at) => {
                    proof {
                        assert(sp_atom(tv, pos as int) == Err::<int, int>(at as int));
                    }
                    return Err(at);
                },
            }
            loop
                invariant
                    wf_tokens_texts(toks@),
                    tv == toks_view(toks@),
                    n == toks@.len(),
                    pos < p <= n,
                    pos + 1 < n,
                    tv[pos as int].0 is LBracket,
                    !(tv[pos as int + 1].0 is RBracket),
                    wf_exprs(items@),
                    items@.len() >= 1,
                    parses_elems_upto(tv, pos as int + 1, items@, items@.len() as int, p as int),
                    sp_atom(tv, pos as int) == sp_elems_rest(tv, p as int),
                decreases n - p,
            {
                if p >= n {
                    return Err(p);
                }
                match toks[p].kind {
                    TokKind::RBracket => {
                        let a = Atom::Array { items };
                        proof {
                            assert(boundary(p as int));
                            assert(parses_elems(tv, pos + 1, a->Array_items@, TokKind::RBracket, p + 1));
                            assert(parses_atom(tv, pos as int, a, p + 1));
                            assert(sp_elems_rest(tv, p as int) == Ok::<int, int>(p + 1));
                        }
                        return Ok((a, p + 1));
                    },
                    TokKind::Comma => {
                        match parse_expr(toks, p + 1) {
                            Ok((e, p2)) => {
                                let ghost items0 = items@;
                                let ghost pold = p as int;
                                items.push(e);
                                p = p2;
                                proof {
                                    lemma_elems_upto_push(
                                        tv,
                                        pos as int + 1,
                                        items0,
                                        e,
                                        items0.len() as int,
                                        pold,
                                    );
                                    assert(boundary(pold));
                                    assert(items@[items@.len() - 1] == e);
                                    assert(parses_elems_upto(
                                        tv,
                                        pos as int + 1,
                                        items@,
                                        items@.len() as int,
                                        p as int,
                                    ));
                                    assert(sp_elems_rest(tv, pold) == sp_elems_rest(tv, p as int));
                                }
                            },
                            Err(at) => {
                                proof {
                                    assert(sp_elems_rest(tv, p as int) == Err::<int, int>(
                                        at as int,
                                    ));
                                }
                                return Err(at);
                            },
                        }
                    },
                    _ => {
                        return Err(p);
                    },
                }
            }
        },
        TokKind::LParen => {
            match parse_expr(toks, pos + 1) {
                Ok((e, p2)) => {
                    if p2 < n {
                        if let TokKind::RParen = toks[p2].kind {
                            let a = Atom::Paren { inner: Box::new(e) };
                            proof {
                                assert(boundary(p2 as int));
                                assert(parses_atom(tv, pos as int, a, p2 + 1));
                                assert(sp_atom(tv, pos as int) == Ok::<int, int>(p2 + 1));
                            }
                            return Ok((a, p2 + 1));
                        }
                    }
                    proof {
                        assert(sp_atom(tv, pos as int) == Err::<int, int>(p2 as int));
                    }
                    Err(p2)
                },
                Err(at) => {
                    proof {
                        assert(sp_atom(tv, pos as int) == Err::<int, int>(at as int));
                    }
                    Err(at)
                },
            }
        },
        _ => Err(pos),
    }
}

/// Parses one term: an atom and its suffix chain.
fn parse_term(toks: &Vec<Token>, pos: usize) -> (r: Result<(Term, usize), usize>)
    requires
        wf_tokens_texts(toks@),
        pos <= toks@.len(),
    ensures
        match r {
            Ok((t, p2)) => pos < p2 <= toks@.len() && wf_term(t) && parses_term(
                toks_view(toks@),
                pos as int,
                t,
                p2 as int,
            ) && sp_term(toks_view(toks@), pos as int) == Ok::<int, int>(p2 as int),
            Err(at) => at <= toks@.len() && sp_term(toks_view(toks@), pos as int) == Err::<
                int,
                int,
            >(at as int),
        },
    decreases toks@.len() - pos, 1int,
{
    let ghost tv = toks_view(toks@);
    let n = toks.len();
    let atom: Atom;
    let mut p: usize;
    match parse_atom(toks, pos) {
        Ok((a, p2)) => {
            atom = a;
            p = p2;
        },
        Err(at) => {
            proof {
                assert(sp_term(tv, pos as int) == Err::<int, int>(at as int));
            }
            return Err(at);
        },
    }
    let ghost m0 = p as int;
    proof {
        assert(sp_term(tv, pos as int) == sp_suffixes(tv, m0));
    }
    let mut suffixes: Vec<Suffix> = Vec::new();
    loop
        invariant
            wf_tokens_texts(toks@),
            tv == toks_view(toks@),
            n == toks@.len(),
            pos < p <= n,
            crate::ast::wf_atom(atom),
            parses_atom(tv, pos as int, atom, m0),
            parses_suffixes_upto(tv, m0, suffixes@, suffixes@.len() as int, p as int),
            sp_term(tv, pos as int) == sp_suffixes(tv, p as int),
            forall|i: int| 0 <= i < suffixes@.len() ==> wf_suffix(#[trigger] suffixes@[i]),
        decreases n - p,
    {
        if p >= n {
            let t = Term { atom, suffixes };
            proof {
                assert(boundary(m0));
                assert(parses_term(tv, pos as int, t, p as int));
                assert(sp_suffixes(tv, p as int) == Ok::<int, int>(p as int));
            }
            return Ok((t, p));
        }
        match toks[p].kind {
            TokKind::LBracket => {
                match parse_expr(toks, p + 1) {
                    Ok((ix, p2)) => {
                        if p2 < n {
                            if let TokKind::RBracket = toks[p2].kind {
                                let ghost sfx0 = suffixes@;
                                let ghost pold = p as int;
                                let sfx = Suffix::Index { index: ix };
                                proof {
                                    assert(boundary(p2 as int));
                                    assert(parses_suffix(tv, pold, sfx, p2 + 1));
                                }
                                suffixes.push(sfx);
                                p = p2 + 1;
                                proof {
                                    lemma_suffixes_upto_push(
                                        tv,
                                        m0,
                                        sfx0,
                                        sfx,
                                        sfx0.len() as int,
                                        pold,
                                    );
                                    assert(boundary(pold));
                                    assert(suffixes@[suffixes@.len() - 1] == sfx);
                                    assert(parses_suffixes_upto(
                                        tv,
                                        m0,
                                        suffixes@,
                                        suffixes@.len() as int,
                                        p as int,
                                    ));
                                    assert(sp_suffixes(tv, pold) == sp_suffixes(tv, p as int));
                                }
                                continue ;
                            }
                        }
                        proof {
                            assert(sp_suffixes(tv, p as int) == Err::<int, int>(p2 as int));
                        }
                        return Err(p2);
                    },
                    Err(at) => {
                        proof {
                            assert(sp_suffixes(tv, p as int) == Err::<int, int>(at as int));
                        }
                        return Err(at);
                    },
                }
            },
            TokKind::Dot => {
                if p + 1 >= n {
                    return Err(n);
                }
                let is_ident = match toks[p + 1].kind {
                    TokKind::Ident => true,
                    _ => false,
                };
                if !is_ident {
                    return Err(p + 1);
                }
                let method = toks[p + 1].text.clone();
                if p + 2 >= n {
                    return Err(n);
                }
                let is_lparen = match toks[p + 2].kind {
                    TokKind::LParen => true,
                    _ => false,
                };
                if !is_lparen {
                    return Err(p + 2);
                }
                match parse_args(toks, p + 3) {
                    Ok((args, p2)) => {
                        let ghost sfx0 = suffixes@;
                        let ghost pold = p as int;
                        let sfx = Suffix::Member { method, args };
                        proof {
                            assert(parses_suffix(tv, pold, sfx, p2 as int));
                        }
                        suffixes.push(sfx);
                        p = p2;
                        proof {
                            lemma_suffixes_upto_push(tv, m0, sfx0, sfx, sfx0.len() as int, pold);
                            assert(boundary(pold));
                            assert(suffixes@[suffixes@.len() - 1] == sfx);
                            assert(parses_suffixes_upto(
                                tv,
                                m0,
                                suffixes@,
                                suffixes@.len() as int,
                                p as int,
                            ));
                            assert(sp_suffixes(tv, pold) == sp_suffixes(tv, p as int));
                        }
                    },
                    Err(at) => {
                        proof {
                            assert(sp_suffixes(tv, p as int) == Err::<int, int>(at as int));
                        }
                        return Err(at);
                    },
                }
            },
            _ => {
                let t = Term { atom, suffixes };
                proof {
                    assert(boundary(m0));
                    assert(term_ended(tv, p as int));
                    assert(parses_term(tv, pos as int, t, p as int));
                    assert(sp_suffixes(tv, p as int) == Ok::<int, int>(p as int));
                }
                return Ok((t, p));
            },
        }
    }
}

/// Parses one expression: a term chain joined by binary operators, left to
/// right.
fn parse_expr(toks: &Vec<Token>, pos: usize) -> (r: Result<(Expr, usize), usize>)
    requires
        wf_tokens_texts(toks@),
        pos <= toks@.len(),
    ensures
        match r {
            Ok((e, p2)) => pos < p2 <= toks@.len() && wf_expr(e) && parses_expr(
                toks_view(toks@),
                pos as int,
                e,
                p2 as int,
            ) && sp_expr(toks_view(toks@), pos as int) == Ok::<int, int>(p2 as int),
            Err(at) => at <= toks@.len() && sp_expr(toks_view(toks@), pos as int) == Err::<
                int,
                int,
            >(at as int),
        },
    decreases toks@.len() - pos, 2int,
{
    let ghost tv = toks_view(toks@);
    let n = toks.len();
    let first: Term;
    let mut p: usize;
    match parse_term(toks, pos) {
        Ok((t, p2)) => {
            first = t;
            p = p2;
        },
        Err(at) => {
            proof {
                assert(sp_expr(tv, pos as int) == Err::<int, int>(at as int));
            }
            return Err(at);
        },
    }
    let ghost m0 = p as int;
    proof {
        assert(sp_expr(tv, pos as int) == sp_chain(tv, m0));
    }
    let mut rest: Vec<OpTerm> = Vec::new();
    loop
        invariant
            wf_tokens_texts(toks@),
            tv == toks_view(toks@),
            n == toks@.len(),
            pos < p <= n,
            wf_term(first),
            parses_term(tv, pos as int, first, m0),
            parses_links_upto(tv, m0, rest@, rest@.len() as int, p as int),
            sp_expr(tv, pos as int) == sp_chain(tv, p as int),
            forall|i: int| 0 <= i < rest@.len() ==> wf_term(#[trigger] rest@[i].term),
        decreases n - p,
    {
        if p >= n {
            let e = Expr { first, rest };
            proof {
                assert(boundary(m0));
                assert(parses_expr(tv, pos as int, e, p as int));
                assert(sp_chain(tv, p as int) == Ok::<int, int>(p as int));
            }
            return Ok((e, p));
        }
        let op_opt = binop_of(toks[p].kind);
        match op_opt {
            Some(op) => {
                match parse_term(toks, p + 1) {
                    Ok((t, p2)) => {
                        let ghost rest0 = rest@;
                        let ghost pold = p as int;
                        rest.push(OpTerm { op, term: t });
                        p = p2;
                        proof {
                            lemma_links_upto_push(
                                tv,
                                m0,
                                rest0,
                                OpTerm { op, term: t },
                                rest0.len() as int,
                                pold,
                            );
                            assert(boundary(pold));
                            assert(rest@[rest@.len() - 1] == OpTerm { op, term: t });
                            assert(parses_links_upto(
                                tv,
                                m0,
                                rest@,
                                rest@.len() as int,
                                p as int,
                            ));
                            assert(sp_chain(tv, pold) == sp_chain(tv, p as int));
                        }
                    },
                    Err(at) => {
                        proof {
                            assert(sp_chain(tv, p as int) == Err::<int, int>(at as int));
                        }
                        return Err(at);
                    },
                }
            },
            None => {
                let e = Expr { first, rest };
                proof {
                    assert(boundary(m0));
                    assert(chain_ended(tv, p as int));
                    assert(parses_expr(tv, pos as int, e, p as int));
                    assert(sp_chain(tv, p as int) == Ok::<int, int>(p as int));
                }
                return Ok((e, p));
            },
        }
    }
}

/// Parses a parameter list after its opening parenthesis; consumes the
/// closing parenthesis.  Parameters take no part in lowering, so only their
/// shape is checked.
fn parse_params(toks: &Vec<Token>, pos: usize) -> (r: Result<usize, usize>)
    requires
        wf_tokens_texts(toks@),
        pos <= toks@.len(),
    ensures
        match r {
            Ok(p2) => pos < p2 <= toks@.len() && parses_params(
                toks_view(toks@),
                pos as int,
                p2 as int,
            ) && sp_params(toks_view(toks@), pos as int) == Ok::<int, int>(p2 as int),
            Err(at) => at <= toks@.len() && sp_params(toks_view(toks@), pos as int) == Err::<
                int,
                int,
            >(at as int),
        },
{
    let ghost tv = toks_view(toks@);
    let n = toks.len();
    if pos >= n {
        return Err(pos);
    }
    if let TokKind::RParen = toks[pos].kind {
        proof {
            assert(parses_params(tv, pos as int, pos + 1));
        }
        return Ok(pos + 1);
    }
    let mut p = pos;
    proof {
        assert(sp_params(tv, pos as int) == sp_params_list(tv, pos as int));
    }
    loop
        invariant
            tv == toks_view(toks@),
            n == toks@.len(),
            pos <= p < n,
            sp_params(tv, pos as int) == sp_params_list(tv, p as int),
            forall|e2: int|
                #[trigger] parses_params(tv, p as int, e2) ==> parses_params(tv, pos as int, e2),
        decreases n - p,
    {
        let is_ident = match toks[p].kind {
            TokKind::Ident => true,
            _ => false,
        };
        if !is_ident {
            return Err(p);
        }
        if p + 1 >= n {
            return Err(n);
        }
        match toks[p + 1].kind {
            TokKind::RParen => {
                proof {
                    assert(parses_params(tv, p as int, p + 2));
                    assert(sp_params_list(tv, p as int) == Ok::<int, int>(p + 2));
                }
                return Ok(p + 2);
            },
            TokKind::Comma => {
                if p + 2 >= n {
                    return Err(n);
                }
                let ghost pold = p as int;
                p = p + 2;
                proof {
                    assert(sp_params_list(tv, pold) == sp_params_list(tv, p as int));
                    assert forall|e2: int| #[trigger] parses_params(tv, p as int, e2) implies
                        parses_params(tv, pos as int, e2) by {
                        assert(parses_params(tv, pold, e2));
                    }
                }
            },
            _ => {
                return Err(p + 1);
            },
        }
    }
}

/// Parses one statement.
fn parse_stmt(toks: &Vec<Token>, pos: usize) -> (r: Result<(Stmt, usize), usize>)
    requires
        wf_tokens_texts(toks@),
        pos <= toks@.len(),
    ensures
        match r {
            Ok((s, p2)) => pos < p2 <= toks@.len() && wf_stmt(s) && parses_stmt(
                toks_view(toks@),
                pos as int,
                s,
                p2 as int,
            ) && sp_stmt(toks_view(toks@), pos as int) == Ok::<int, int>(p2 as int),
            Err(at) => at <= toks@.len() && sp_stmt(toks_view(toks@), pos as int) == Err::<
                int,
                int,
            >(at as int),
        },
    decreases toks@.len() - pos, 3int,
{
    let ghost tv = toks_view(toks@);
    let n = toks.len();
    if pos >= n {
        return Err(pos);
    }
    match toks[pos].kind {
        TokKind::KwLet => {
            if pos + 1 >= n {
                return Err(n);
            }
            let is_ident = match toks[pos + 1].kind {
                TokKind::Ident => true,
                _ => false,
            };
            if !is_ident {
                return Err(pos + 1);
            }
            let name = toks[pos + 1].text.clone();
            if pos + 2 >= n {
                return Err(n);
            }
            let is_assign = match toks[pos + 2].kind {
                TokKind::Assign => true,
                _ => false,
            };
            if !is_assign {
                return Err(pos + 2);
            }
            match parse_expr(toks, pos + 3) {
                Ok((e, p2)) => {
                    let st = Stmt::LetStmt { name, expr: e };
                    proof {
                        assert(parses_stmt(tv, pos as int, st, p2 as int));
                        assert(sp_stmt(tv, pos as int) == Ok::<int, int>(p2 as int));
                    }
                    Ok((st, p2))
                },
                Err(at) => {
                    proof {
                        assert(sp_stmt(tv, pos as int) == Err::<int, int>(at as int));
                    }
                    Err(at)
                },
            }
        },
        TokKind::KwIf => {
            let cond: Expr;
            let p: usize;
            match parse_expr(toks, pos + 1) {
                Ok((e, p1)) => {
                    cond = e;
                    p = p1;
                },
                Err(at) => {
                    proof {
                        assert(sp_stmt(tv, pos as int) == Err::<int, int>(at as int));
                    }
                    return Err(at);
                },
            }
            let then_block: Block;
            let p2: usize;
            match parse_block(toks, p) {
                Ok((b, q)) => {
                    then_block = b;
                    p2 = q;
                },
                Err(at) => {
                    proof {
                        assert(sp_stmt(tv, pos as int) == Err::<int, int>(at as int));
                    }
                    return Err(at);
                },
            }
            let has_else = p2 < n && (match toks[p2].kind {
                TokKind::KwElse => true,
                _ => false,
            });
            if has_else {
                match parse_block(toks, p2 + 1) {
                    Ok((eb, p3)) => {
                        let st = Stmt::IfStmt { cond, then_block, else_block: Some(eb) };
                        proof {
                            assert(boundary(p as int));
                            assert(boundary(p2 as int));
                            assert(parses_stmt(tv, pos as int, st, p3 as int));
                            assert(sp_stmt(tv, pos as int) == Ok::<int, int>(p3 as int));
                        }
                        Ok((st, p3))
                    },
                    Err(at) => {
                        proof {
                            assert(sp_stmt(tv, pos as int) == Err::<int, int>(at as int));
                        }
                        Err(at)
                    },
                }
            } else {
                let st = Stmt::IfStmt { cond, then_block, else_block: None };
                proof {
                    assert(boundary(p as int));
                    assert(boundary(p2 as int));
                    assert(parses_stmt(tv, pos as int, st, p2 as int));
                    assert(sp_stmt(tv, pos as int) == Ok::<int, int>(p2 as int));
                }
                Ok((st, p2))
            }
        },
        TokKind::KwLoop => {
            match parse_block(toks, pos + 1) {
                Ok((b, p2)) => {
                    let st = Stmt::LoopStmt { body: b };
                    proof {
                        assert(parses_stmt(tv, pos as int, st, p2 as int));
                        assert(sp_stmt(tv, pos as int) == Ok::<int, int>(p2 as int));
                    }
                    Ok((st, p2))
                },
                Err(at) => {
                    proof {
                        assert(sp_stmt(tv, pos as int) == Err::<int, int>(at as int));
                    }
                    Err(at)
                },
            }
        },
        TokKind::KwBreak => {
            proof {
                assert(parses_stmt(tv, pos as int, Stmt::BreakStmt, pos + 1));
                assert(sp_stmt(tv, pos as int) == Ok::<int, int>(pos + 1));
            }
            Ok((Stmt::BreakStmt, pos + 1))
        },
        TokKind::KwFn => {
            if pos + 1 >= n {
                return Err(n);
            }
            let is_ident = match toks[pos + 1].kind {
                TokKind::Ident => true,
                _ => false,
            };
            if !is_ident {
                return Err(pos + 1);
            }
            if pos + 2 >= n {
                return Err(n);
            }
            let is_lparen = match toks[pos + 2].kind {
                TokKind::LParen => true,
                _ => false,
            };
            if !is_lparen {
                return Err(pos + 2);
            }
            let p: usize;
            match parse_params(toks, pos + 3) {
                Ok(q) => {
                    p = q;
                },
                Err(at) => {
                    proof {
                        assert(sp_stmt(tv, pos as int) == Err::<int, int>(at as int));
                    }
                    return Err(at);
                },
            }
            match parse_block(toks, p) {
                Ok((b, p2)) => {
                    let st = Stmt::FnDef { body: b };
                    proof {
                        assert(boundary(p as int));
                        assert(parses_stmt(tv, pos as int, st, p2 as int));
                        assert(sp_stmt(tv, pos as int) == Ok::<int, int>(p2 as int));
                    }
                    Ok((st, p2))
                },
                Err(at) => {
                    proof {
                        assert(sp_stmt(tv, pos as int) == Err::<int, int>(at as int));
                    }
                    Err(at)
                },
            }
        },
        _ => {
            match parse_expr(toks, pos) {
                Ok((e, p2)) => {
                    let st = Stmt::ExprStmt { expr: e };
                    proof {
                        assert(!stmt_starter(tv[pos as int].0));
                        assert(parses_stmt(tv, pos as int, st, p2 as int));
                        assert(sp_stmt(tv, pos as int) == Ok::<int, int>(p2 as int));
                    }
                    Ok((st, p2))
                },
                Err(at) => {
                    proof {
                        assert(sp_stmt(tv, pos as int) == Err::<int, int>(at as int));
                    }
                    Err(at)
                },
            }
        },
    }
}

/// Parses a block: statements between braces.
fn parse_block(toks: &Vec<Token>, pos: usize) -> (r: Result<(Block, usize), usize>)
    requires
        wf_tokens_texts(toks@),
        pos <= toks@.len(),
    ensures
        match r {
            Ok((b, p2)) => pos < p2 <= toks@.len() && wf_block(b) && parses_block(
                toks_view(toks@),
                pos as int,
                b,
                p2 as int,
            ) && sp_block(toks_view(toks@), pos as int) == Ok::<int, int>(p2 as int),
            Err(at) => at <= toks@.len() && sp_block(toks_view(toks@), pos as int) == Err::<
                int,
                int,
            >(at as int),
        },
    decreases toks@.len() - pos, 4int,
{
    let ghost tv = toks_view(toks@);
    let n = toks.len();
    if pos >= n {
        return Err(pos);
    }
    let is_lbrace = match toks[pos].kind {
        TokKind::LBrace => true,
        _ => false,
    };
    if !is_lbrace {
        return Err(pos);
    }
    let mut stmts: Vec<Stmt> = Vec::new();
    let mut p = pos + 1;
    proof {
        assert(sp_block(tv, pos as int) == sp_block_stmts(tv, p as int));
    }
    loop
        invariant
            wf_tokens_texts(toks@),
            tv == toks_view(toks@),
            n == toks@.len(),
            pos < p <= n,
            tv[pos as int].0 is LBrace,
            parses_stmts_upto(tv, pos as int + 1, stmts@, stmts@.len() as int, p as int),
            sp_block(tv, pos as int) == sp_block_stmts(tv, p as int),
            forall|i: int| 0 <= i < stmts@.len() ==> wf_stmt(#[trigger] stmts@[i]),
        decreases n - p,
    {
        if p >= n {
            return Err(n);
        }
        if let TokKind::RBrace = toks[p].kind {
            let b = Block { stmts };
            proof {
                assert(boundary(p as int));
                assert(parses_block(tv, pos as int, b, p + 1));
                assert(sp_block_stmts(tv, p as int) == Ok::<int, int>(p + 1));
            }
            return Ok((b, p + 1));
        }
        match parse_stmt(toks, p) {
            Ok((s, p2)) => {
                let ghost ss0 = stmts@;
                let ghost pold = p as int;
                stmts.push(s);
                p = p2;
                proof {
                    lemma_stmts_upto_push(tv, pos as int + 1, ss0, s, ss0.len() as int, pold);
                    assert(boundary(pold));
                    assert(stmts@[stmts@.len() - 1] == s);
                    assert(parses_stmts_upto(
                        tv,
                        pos as int + 1,
                        stmts@,
                        stmts@.len() as int,
                        p as int,
                    ));
                    assert(sp_block_stmts(tv, pold) == sp_block_stmts(tv, p as int));
                }
            },
            Err(at) => {
                proof {
                    assert(sp_block_stmts(tv, p as int) == Err::<int, int>(at as int));
                }
                return Err(at);
            },
        }
    }
}

/// Parses a whole token sequence as a program.  An empty token sequence
/// parses to a program with no statements; a non-empty one parses to at
/// least one statement or fails.
fn parse_program_toks(toks: &Vec<Token>) -> (r: Result<Program, usize>)
    requires
        wf_tokens_texts(toks@),
    ensures
        match r {
            Ok(p) => wf_program(p) && (p.stmts@.len() == 0 <==> toks@.len() == 0)
                && parses_program(toks_view(toks@), p) && sp_program(toks_view(toks@)) is Ok,
            Err(at) => at <= toks@.len() && toks@.len() > 0 && sp_program(toks_view(toks@))
                == Err::<int, int>(at as int),
        },
{
    let ghost tv = toks_view(toks@);
    let n = toks.len();
    let mut stmts: Vec<Stmt> = Vec::new();
    let mut p: usize = 0;
    while p < n
        invariant
            wf_tokens_texts(toks@),
            tv == toks_view(toks@),
            n == toks@.len(),
            p <= n,
            stmts@.len() == 0 ==> p == 0,
            stmts@.len() > 0 ==> p > 0,
            parses_stmts_upto(tv, 0, stmts@, stmts@.len() as int, p as int),
            sp_program(tv) == sp_prog_stmts(tv, p as int),
            forall|i: int| 0 <= i < stmts@.len() ==> wf_stmt(#[trigger] stmts@[i]),
        decreases n - p,
    {
        match parse_stmt(toks, p) {
            Ok((s, p2)) => {
                let ghost ss0 = stmts@;
                let ghost pold = p as int;
                stmts.push(s);
                p = p2;
                proof {
                    lemma_stmts_upto_push(tv, 0, ss0, s, ss0.len() as int, pold);
                    assert(boundary(pold));
                    assert(stmts@[stmts@.len() - 1] == s);
                    assert(parses_stmts_upto(tv, 0, stmts@, stmts@.len() as int, p as int));
                    assert(sp_prog_stmts(tv, pold) == sp_prog_stmts(tv, p as int));
                }
            },
            Err(at) => {
                proof {
                    assert(sp_prog_stmts(tv, p as int) == Err::<int, int>(at as int));
                }
                return Err(at);
            },
        }
    }
    let prog = Program { stmts };
    proof {
        assert(tv.len() == toks@.len());
        assert(parses_program(tv, prog));
        assert(sp_prog_stmts(tv, p as int) == Ok::<int, int>(tv.len() as int));
    }
    Ok(prog)
}

/// The parser: source text in, syntax tree or diagnostic out.
pub struct ZincParser;

impl ZincParser {
    /// Parses source text into a program: strips a leading byte-order mark,
    /// scans, and parses.  A produced program stands in the parse relation
    /// with the scan of the stripped source; inputs of whitespace and
    /// comments alone parse to a program with no statements; every failure
    /// carries the location of the offending input.
    pub fn parse_program(source: &str) -> (r: Result<Program, ZincError>)
        requires
            source@.len() < usize::MAX,
        ensures
            match r {
                Ok(p) => wf_program(p) && (p.stmts@.len() == 0 <==> ws_comments_only(
                    strip_bom(source@),
                )) && (scan(strip_bom(source@)) matches Ok(ts) && parses_program(ts, p)
                    && sp_program(ts) is Ok),
                Err(e) => is_syntax_error_for(e, strip_bom(source@)) && !ws_comments_only(
                    strip_bom(source@),
                ),
            },
            scan(strip_bom(source@)) matches Ok(ts) && sp_program(ts) is Ok ==> r is Ok,
            scan(strip_bom(source@)) is Err ==> r is Err,
            scan(strip_bom(source@)) matches Err(at) ==> (r matches Err(e) && e.line
                == crate::diag::line_of(strip_bom(source@), at) && e.column == crate::diag::col_of(
                strip_bom(source@),
                at,
            ) && e.message@ == (if at < strip_bom(source@).len() {
                "Unexpected character"@
            } else {
                "Unterminated string literal"@
            })),
            match scan(strip_bom(source@)) {
                Ok(ts) => match sp_program(ts) {
                    Err(at) => {
                        let failed_at = if 0 <= at < ts.len() {
                            ts[at].2
                        } else {
                            strip_bom(source@).len() as int
                        };
                        r matches Err(e) && e.line == crate::diag::line_of(
                            strip_bom(source@),
                            failed_at,
                        ) && e.column == crate::diag::col_of(strip_bom(source@), failed_at)
                            && e.message@ == (if 0 <= at < ts.len() {
                            "Unexpected token"@
                        } else {
                            "Unexpected end of input"@
                        })
                    },
                    Ok(_) => true,
                },
                Err(_) => true,
            },
    {
        let n0 = source.unicode_len();
        let has_bom = n0 > 0 && source.get_char(0) == '\u{feff}';
        let stripped: &str = if has_bom {
            let sub = source.substring_char(1, n0);
            proof {
                assert(sub@ =~= strip_bom(source@));
            }
            sub
        } else {
            proof {
                assert(source@ =~= strip_bom(source@));
            }
            source
        };
        let chars = str_to_chars(stripped);
        let toks = match tokenize(stripped, &chars) {
            Ok(ts) => ts,
            Err(LexErr::BadChar { pos }) => {
                proof {
                    assert(chars@ == strip_bom(source@));
                    assert(scan(strip_bom(source@)) == Err::<Seq<(TokKind, Seq<char>, int)>, int>(
                        pos as int,
                    ));
                    assert(scan(strip_bom(source@)) is Err);
                }
                return Err(syntax_error_at(&chars, pos, "Unexpected character"));
            },
            Err(LexErr::Unterminated { pos }) => {
                proof {
                    assert(chars@ == strip_bom(source@));
                    assert(scan(strip_bom(source@)) == Err::<Seq<(TokKind, Seq<char>, int)>, int>(
                        pos as int,
                    ));
                    assert(scan(strip_bom(source@)) is Err);
                }
                return Err(syntax_error_at(&chars, pos, "Unterminated string literal"));
            },
        };
        match parse_program_toks(&toks) {
            Ok(p) => {
                proof {
                    assert(chars@ == strip_bom(source@));
                    assert(scan(strip_bom(source@)) == Ok::<Seq<(TokKind, Seq<char>, int)>, int>(
                        crate::lexer::toks_view(toks@),
                    ));
                }
                Ok(p)
            },
            Err(at) => {
                proof {
                    assert(chars@ == strip_bom(source@));
                    assert(scan(strip_bom(source@)) == Ok::<Seq<(TokKind, Seq<char>, int)>, int>(
                        crate::lexer::toks_view(toks@),
                    ));
                }
                let cpos = if at < toks.len() {
                    let q = toks[at].pos;
                    proof {
                        assert(wf_token(toks@[at as int], chars@.len() as int));
                        assert(crate::lexer::toks_view(toks@)[at as int].2 == q);
                    }
                    q
                } else {
                    chars.len()
                };
                let msg: &str = if at < toks.len() {
                    "Unexpected token"
                } else {
                    "Unexpected end of input"
                };
                Err(syntax_error_at(&chars, cpos, msg))
            },
        }
    }
}

} // verus!
