//! Lowering: from the syntax tree to output text.
//!
//! The spec functions here are the definition of the generated text; the
//! executable transpiler functions (in this module, below the specs) each
//! produce exactly the text their spec function describes.  Lowering is
//! best-effort: a statement or expression that misses a local precondition
//! (an empty sub-expression, a wrong argument count on a recognized builtin)
//! lowers to empty text that is absorbed by the surrounding output, and only
//! parsing can fail a whole transpile call.

use vstd::prelude::*;

use crate::ast::Atom;
use crate::ast::BinOp;
use crate::ast::Block;
use crate::ast::Expr;
use crate::ast::OpTerm;
use crate::ast::Program;
use crate::ast::Stmt;
use crate::ast::Suffix;
use crate::ast::Term;
use crate::escape::string_text;
use crate::text::comma_join;
use crate::text::is_simple_ident;

verus! {

/// The source spelling of a binary operator.
pub open spec fn op_text(op: BinOp) -> Seq<char> {
    match op {
        BinOp::Pipe => "|>"@,
        BinOp::Concat => "+"@,
        BinOp::Eq => "=="@,
        BinOp::Ne => "!="@,
        BinOp::Gt => ">"@,
        BinOp::Lt => "<"@,
        BinOp::Ge => ">="@,
        BinOp::Le => "<="@,
    }
}

/// The lowered texts of the arguments from position `i` on, with arguments
/// that lower to empty text dropped.
pub open spec fn arg_texts(es: Seq<Expr>, i: int) -> Seq<Seq<char>>
    decreases es, es.len() - i,
{
    if i < 0 || i >= es.len() {
        Seq::empty()
    } else {
        let t = expr_text(es[i]);
        if t.len() > 0 {
            seq![t] + arg_texts(es, i + 1)
        } else {
            arg_texts(es, i + 1)
        }
    }
}

/// The bare-call rewrite: `print` becomes a debug-formatted print of the
/// joined arguments, `leak` the external leak-tracking call with no
/// arguments, and every other name passes through verbatim.
pub open spec fn call_text(name: Seq<char>, args: Seq<Seq<char>>) -> Seq<char> {
    if name == "print"@ {
        "println!(\"{:?}\", "@ + comma_join(args) + ")"@
    } else if name == "leak"@ {
        "zinc_std::leak()"@
    } else {
        name + "("@ + comma_join(args) + ")"@
    }
}

/// The member-call rewrite table: recognized `receiver.method` pairs map to
/// their external runtime call spellings, with a wrong argument count on a
/// recognized pair lowering to empty text; every other pair passes through
/// as a literal method call.
pub open spec fn member_call_text(obj: Seq<char>, method: Seq<char>, args: Seq<Seq<char>>) -> Seq<
    char,
> {
    if obj == "db"@ && method == "query"@ {
        if args.len() == 2 {
            "zinc_std::db::query("@ + args[0] + ", "@ + args[1] + ")"@
        } else {
            Seq::empty()
        }
    } else if obj == "fs"@ && method == "read"@ {
        if args.len() == 1 {
            "zinc_std::fs::read("@ + args[0] + ")"@
        } else {
            Seq::empty()
        }
    } else if obj == "fs"@ && method == "write"@ {
        if args.len() == 2 {
            "zinc_std::fs::write("@ + args[0] + ", "@ + args[1] + ")"@
        } else {
            Seq::empty()
        }
    } else if obj == "html"@ && method == "select"@ {
        if args.len() == 2 {
            "zinc_std::html::select_text("@ + args[0] + ", "@ + args[1] + ")"@
        } else {
            Seq::empty()
        }
    } else if obj == "json"@ && method == "parse"@ {
        if args.len() == 1 {
            "zinc_std::json::parse("@ + args[0] + ")"@
        } else {
            Seq::empty()
        }
    } else if obj == "json"@ && method == "get"@ {
        if args.len() == 2 {
            "zinc_std::json::get(&"@ + args[0] + ", "@ + args[1] + ")"@
        } else {
            Seq::empty()
        }
    } else if obj == "json"@ && method == "at"@ {
        if args.len() == 2 {
            "zinc_std::json::at(&"@ + args[0] + ", "@ + args[1] + ")"@
        } else {
            Seq::empty()
        }
    } else if obj == "json"@ && method == "to_string"@ {
        if args.len() == 1 {
            "zinc_std::json::to_string("@ + args[0] + ")"@
        } else {
            Seq::empty()
        }
    } else if obj == "spider"@ && method == "get_proxy"@ {
        if args.len() == 3 {
            "zinc_std::spider::get_with_proxy("@ + args[0] + ", "@ + args[1] + ", "@ + args[2]
                + ")"@
        } else {
            Seq::empty()
        }
    } else if obj == "py"@ && method == "eval"@ {
        if args.len() == 1 {
            "zinc_std::python::eval("@ + args[0] + ")"@
        } else {
            Seq::empty()
        }
    } else if obj == "spider"@ && method == "get"@ {
        if args.len() == 1 {
            "zinc_std::spider::get("@ + args[0] + ", None)"@
        } else if args.len() == 2 {
            "zinc_std::spider::get("@ + args[0] + ", Some("@ + args[1] + "))"@
        } else {
            Seq::empty()
        }
    } else {
        obj + "."@ + method + "("@ + comma_join(args) + ")"@
    }
}

/// The formatted-concatenation form of the `+` operator.
pub open spec fn concat_text(lhs: Seq<char>, rhs: Seq<char>) -> Seq<char> {
    "format!(\"{}{}\", "@ + lhs + ", "@ + rhs + ")"@
}

/// The parenthesized infix form of a comparison operator.
pub open spec fn cmp_text(lhs: Seq<char>, op: BinOp, rhs: Seq<char>) -> Seq<char> {
    "("@ + lhs + " "@ + op_text(op) + " "@ + rhs + ")"@
}

/// The text of an expression chain from link `i` on, with `cur` the text
/// accumulated so far: each link folds its term into the accumulator, left
/// to right, with no precedence beyond evaluation order.
pub open spec fn chain_text(cur: Seq<char>, rest: Seq<OpTerm>, i: int) -> Seq<char>
    decreases rest, rest.len() - i,
{
    if i < 0 || i >= rest.len() {
        cur
    } else {
        let link = rest[i];
        match link.op {
            BinOp::Pipe => chain_text(pipeline_text(cur, link.term), rest, i + 1),
            BinOp::Concat => chain_text(concat_text(cur, term_text(link.term)), rest, i + 1),
            _ => chain_text(cmp_text(cur, link.op, term_text(link.term)), rest, i + 1),
        }
    }
}

/// The text of an expression: its first term folded through the chain.
pub open spec fn expr_text(e: Expr) -> Seq<char>
    decreases e,
{
    chain_text(term_text(e.first), e.rest@, 0)
}

/// The pipeline desugaring: `lhs |> rhs` inserts the accumulated text of the
/// left operand as the first argument of the call described by `rhs`.
pub open spec fn pipeline_text(lhs: Seq<char>, rhs: Term) -> Seq<char>
    decreases rhs,
{
    match rhs.atom {
        Atom::Call { name, args } => suffixes_text(
            call_text(name@, seq![lhs] + arg_texts(args@, 0)),
            rhs.suffixes@,
            0,
        ),
        Atom::Ident { name } => {
            if rhs.suffixes@.len() == 0 {
                call_text(name@, seq![lhs])
            } else {
                match rhs.suffixes@[0] {
                    Suffix::Member { method, args } => suffixes_text(
                        member_call_text(name@, method@, seq![lhs] + arg_texts(args@, 0)),
                        rhs.suffixes@,
                        1,
                    ),
                    Suffix::Index { index } => suffixes_text(name@, rhs.suffixes@, 0) + "("@ + lhs
                        + ")"@,
                }
            }
        },
        _ => suffixes_text(atom_text(rhs.atom), rhs.suffixes@, 0) + "("@ + lhs + ")"@,
    }
}

/// The text of an atom.
pub open spec fn atom_text(a: Atom) -> Seq<char>
    decreases a,
{
    match a {
        Atom::Call { name, args } => call_text(name@, arg_texts(args@, 0)),
        Atom::Array { items } => "vec!["@ + comma_join(arg_texts(items@, 0)) + "]"@,
        Atom::StrLit { raw } => string_text(raw@),
        Atom::Number { text } => text@,
        Atom::Ident { name } => name@,
        Atom::Paren { inner } => expr_text(*inner),
    }
}

/// The text after applying one suffix to the accumulated text `cur`.
pub open spec fn suffix_text(cur: Seq<char>, s: Suffix) -> Seq<char>
    decreases s,
{
    match s {
        Suffix::Index { index } => {
            let ix = expr_text(index);
            if cur.len() == 0 || ix.len() == 0 {
                Seq::empty()
            } else {
                cur + "["@ + ix + " as usize]"@
            }
        },
        Suffix::Member { method, args } => {
            if method@.len() == 0 {
                Seq::empty()
            } else {
                let ats = arg_texts(args@, 0);
                if is_simple_ident(cur) {
                    member_call_text(cur, method@, ats)
                } else {
                    cur + "."@ + method@ + "("@ + comma_join(ats) + ")"@
                }
            }
        },
    }
}

/// The text after applying the suffixes from position `i` on to `cur`.
pub open spec fn suffixes_text(cur: Seq<char>, sfx: Seq<Suffix>, i: int) -> Seq<char>
    decreases sfx, sfx.len() - i,
{
    if i < 0 || i >= sfx.len() {
        cur
    } else {
        suffixes_text(suffix_text(cur, sfx[i]), sfx, i + 1)
    }
}

/// The text of a term: its atom with the suffix chain applied left to right.
pub open spec fn term_text(t: Term) -> Seq<char>
    decreases t,
{
    suffixes_text(atom_text(t.atom), t.suffixes@, 0)
}

/// The text of a statement.
pub open spec fn stmt_text(s: Stmt) -> Seq<char>
    decreases s,
{
    match s {
        Stmt::ExprStmt { expr } => {
            let t = expr_text(expr);
            if t.len() == 0 {
                Seq::empty()
            } else {
                t + ";"@
            }
        },
        Stmt::LetStmt { name, expr } => {
            let t = expr_text(expr);
            if name@.len() == 0 || t.len() == 0 {
                Seq::empty()
            } else {
                "let "@ + name@ + " = "@ + t + ";"@
            }
        },
        Stmt::IfStmt { cond, then_block, else_block } => {
            let c = expr_text(cond);
            let tb = block_text(then_block);
            let eb = match else_block {
                Some(b) => block_text(b),
                None => Seq::empty(),
            };
            if c.len() == 0 || tb.len() == 0 {
                Seq::empty()
            } else if eb.len() == 0 {
                "if "@ + c + " {\n"@ + tb + "}"@
            } else {
                "if "@ + c + " {\n"@ + tb + "} else {\n"@ + eb + "}"@
            }
        },
        Stmt::LoopStmt { body } => {
            let b = block_text(body);
            if b.len() == 0 {
                Seq::empty()
            } else {
                "loop {\n"@ + b + "}"@
            }
        },
        Stmt::BreakStmt => "break;"@,
        Stmt::FnDef { body } => block_text(body),
    }
}

/// The texts of the statements from position `i` on, concatenated in source
/// order with no separators.
pub open spec fn stmts_text(ss: Seq<Stmt>, i: int) -> Seq<char>
    decreases ss, ss.len() - i,
{
    if i < 0 || i >= ss.len() {
        Seq::empty()
    } else {
        stmt_text(ss[i]) + stmts_text(ss, i + 1)
    }
}

/// The text of a block: its statements concatenated in source order.
pub open spec fn block_text(b: Block) -> Seq<char>
    decreases b,
{
    stmts_text(b.stmts@, 0)
}

/// The text of a whole program: its statements concatenated in source order.
pub open spec fn program_text(p: Program) -> Seq<char> {
    stmts_text(p.stmts@, 0)
}

/// The source spelling of a binary operator.
pub fn op_str(op: BinOp) -> (r: &'static str)
    ensures
        r@ == op_text(op),
{
    match op {
        BinOp::Pipe => "|>",
        BinOp::Concat => "+",
        BinOp::Eq => "==",
        BinOp::Ne => "!=",
        BinOp::Gt => ">",
        BinOp::Lt => "<",
        BinOp::Ge => ">=",
        BinOp::Le => "<=",
    }
}

/// Lowers a bare call through the call-rewrite table.
pub fn transpile_call_with_args(name: &str, args: &[String]) -> (r: String)
    ensures
        r@ == call_text(name@, crate::text::views_of(args@)),
{
    let joined = crate::text::join_comma(args);
    if crate::text::str_eq(name, "print") {
        let mut out = String::from_str("println!(\"{:?}\", ");
        out.append(joined.as_str());
        out.append(")");
        proof {
            assert(out@ =~= call_text(name@, crate::text::views_of(args@)));
        }
        out
    } else if crate::text::str_eq(name, "leak") {
        String::from_str("zinc_std::leak()")
    } else {
        let mut out = String::from_str(name);
        out.append("(");
        out.append(joined.as_str());
        out.append(")");
        proof {
            assert(out@ =~= call_text(name@, crate::text::views_of(args@)));
        }
        out
    }
}

/// Lowers a member call through the member-call rewrite table.
pub fn transpile_member_call_with_args(obj: &str, method: &str, args: &[String]) -> (r: String)
    ensures
        r@ == member_call_text(obj@, method@, crate::text::views_of(args@)),
{
    let ghost ats = crate::text::views_of(args@);
    if crate::text::str_eq(obj, "db") && crate::text::str_eq(method, "query") {
        if args.len() == 2 {
            let mut out = String::from_str("zinc_std::db::query(");
            out.append(args[0].as_str());
            out.append(", ");
            out.append(args[1].as_str());
            out.append(")");
            proof {
                assert(out@ =~= member_call_text(obj@, method@, ats));
            }
            return out;
        }
        return String::new();
    }
    if crate::text::str_eq(obj, "fs") && crate::text::str_eq(method, "read") {
        if args.len() == 1 {
            let mut out = String::from_str("zinc_std::fs::read(");
            out.append(args[0].as_str());
            out.append(")");
            proof {
                assert(out@ =~= member_call_text(obj@, method@, ats));
            }
            return out;
        }
        return String::new();
    }
    if crate::text::str_eq(obj, "fs") && crate::text::str_eq(method, "write") {
        if args.len() == 2 {
            let mut out = String::from_str("zinc_std::fs::write(");
            out.append(args[0].as_str());
            out.append(", ");
            out.append(args[1].as_str());
            out.append(")");
            proof {
                assert(out@ =~= member_call_text(obj@, method@, ats));
            }
            return out;
        }
        return String::new();
    }
    if crate::text::str_eq(obj, "html") && crate::text::str_eq(method, "select") {
        if args.len() == 2 {
            let mut out = String::from_str("zinc_std::html::select_text(");
            out.append(args[0].as_str());
            out.append(", ");
            out.append(args[1].as_str());
            out.append(")");
            proof {
                assert(out@ =~= member_call_text(obj@, method@, ats));
            }
            return out;
        }
        return String::new();
    }
    if crate::text::str_eq(obj, "json") && crate::text::str_eq(method, "parse") {
        if args.len() == 1 {
            let mut out = String::from_str("zinc_std::json::parse(");
            out.append(args[0].as_str());
            out.append(")");
            proof {
                assert(out@ =~= member_call_text(obj@, method@, ats));
            }
            return out;
        }
        return String::new();
    }
    if crate::text::str_eq(obj, "json") && crate::text::str_eq(method, "get") {
        if args.len() == 2 {
            let mut out = String::from_str("zinc_std::json::get(&");
            out.append(args[0].as_str());
            out.append(", ");
            out.append(args[1].as_str());
            out.append(")");
            proof {
                assert(out@ =~= member_call_text(obj@, method@, ats));
            }
            return out;
        }
        return String::new();
    }
    if crate::text::str_eq(obj, "json") && crate::text::str_eq(method, "at") {
        if args.len() == 2 {
            let mut out = String::from_str("zinc_std::json::at(&");
            out.append(args[0].as_str());
            out.append(", ");
            out.append(args[1].as_str());
            out.append(")");
            proof {
                assert(out@ =~= member_call_text(obj@, method@, ats));
            }
            return out;
        }
        return String::new();
    }
    if crate::text::str_eq(obj, "json") && crate::text::str_eq(method, "to_string") {
        if args.len() == 1 {
            let mut out = String::from_str("zinc_std::json::to_string(");
            out.append(args[0].as_str());
            out.append(")");
            proof {
                assert(out@ =~= member_call_text(obj@, method@, ats));
            }
            return out;
        }
        return String::new();
    }
    if crate::text::str_eq(obj, "spider") && crate::text::str_eq(method, "get_proxy") {
        if args.len() == 3 {
            let mut out = String::from_str("zinc_std::spider::get_with_proxy(");
            out.append(args[0].as_str());
            out.append(", ");
            out.append(args[1].as_str());
            out.append(", ");
            out.append(args[2].as_str());
            out.append(")");
            proof {
                assert(out@ =~= member_call_text(obj@, method@, ats));
            }
            return out;
        }
        return String::new();
    }
    if crate::text::str_eq(obj, "py") && crate::text::str_eq(method, "eval") {
        if args.len() == 1 {
            let mut out = String::from_str("zinc_std::python::eval(");
            out.append(args[0].as_str());
            out.append(")");
            proof {
                assert(out@ =~= member_call_text(obj@, method@, ats));
            }
            return out;
        }
        return String::new();
    }
    if crate::text::str_eq(obj, "spider") && crate::text::str_eq(method, "get") {
        if args.len() == 1 {
            let mut out = String::from_str("zinc_std::spider::get(");
            out.append(args[0].as_str());
            out.append(", None)");
            proof {
                assert(out@ =~= member_call_text(obj@, method@, ats));
            }
            out
        } else if args.len() == 2 {
            let mut out = String::from_str("zinc_std::spider::get(");
            out.append(args[0].as_str());
            out.append(", Some(");
            out.append(args[1].as_str());
            out.append("))");
            proof {
                assert(out@ =~= member_call_text(obj@, method@, ats));
            }
            out
        } else {
            String::new()
        }
    } else {
        let joined = crate::text::join_comma(args);
        let mut out = String::from_str(obj);
        out.append(".");
        out.append(method);
        out.append("(");
        out.append(joined.as_str());
        out.append(")");
        proof {
            assert(out@ =~= member_call_text(obj@, method@, ats));
        }
        out
    }
}

/// Lowers an argument list: each argument's text, with arguments that lower
/// to empty text dropped.
pub fn transpile_arg_list(args: &Vec<Expr>) -> (r: Vec<String>)
    ensures
        crate::text::views_of(r@) == arg_texts(args@, 0),
    decreases args, 0int,
{
    let mut out: Vec<String> = Vec::new();
    let n = args.len();
    let mut i: usize = 0;
    proof {
        assert(crate::text::views_of(out@) + arg_texts(args@, 0) =~= arg_texts(args@, 0));
    }
    while i < n
        invariant
            0 <= i <= n,
            n == args@.len(),
            arg_texts(args@, 0) == crate::text::views_of(out@) + arg_texts(args@, i as int),
        decreases n - i,
    {
        let ghost before = crate::text::views_of(out@);
        let t = transpile_expr(&args[i]);
        if !t.as_str().is_empty() {
            let ghost tv = t@;
            out.push(t);
            proof {
                assert(crate::text::views_of(out@) =~= before + seq![tv]);
                assert(crate::text::views_of(out@) + arg_texts(args@, i + 1 as int) =~= before + (
                seq![tv] + arg_texts(args@, i + 1 as int)));
            }
        }
        i = i + 1;
    }
    proof {
        assert(crate::text::views_of(out@) + arg_texts(args@, n as int) =~= crate::text::views_of(
            out@,
        ));
    }
    out
}

/// Lowers an expression: the first term folded through the operator chain,
/// left to right.
pub fn transpile_expr(e: &Expr) -> (r: String)
    ensures
        r@ == expr_text(*e),
    decreases e,
{
    let mut current = transpile_term(&e.first);
    let n = e.rest.len();
    let mut i: usize = 0;
    while i < n
        invariant
            0 <= i <= n,
            n == e.rest@.len(),
            expr_text(*e) == chain_text(current@, e.rest@, i as int),
        decreases n - i,
    {
        let ghost prev = current@;
        let link = &e.rest[i];
        match link.op {
            BinOp::Pipe => {
                current = transpile_pipeline(current, &link.term);
            },
            BinOp::Concat => {
                let rhs = transpile_term(&link.term);
                let mut out = String::from_str("format!(\"{}{}\", ");
                out.append(current.as_str());
                out.append(", ");
                out.append(rhs.as_str());
                out.append(")");
                proof {
                    assert(out@ =~= concat_text(prev, rhs@));
                }
                current = out;
            },
            _ => {
                let rhs = transpile_term(&link.term);
                let mut out = String::from_str("(");
                out.append(current.as_str());
                out.append(" ");
                out.append(op_str(link.op));
                out.append(" ");
                out.append(rhs.as_str());
                out.append(")");
                proof {
                    assert(out@ =~= cmp_text(prev, link.op, rhs@));
                }
                current = out;
            },
        }
        i = i + 1;
    }
    current
}

/// Lowers a term: its atom, with the suffix chain applied left to right.
pub fn transpile_term(t: &Term) -> (r: String)
    ensures
        r@ == term_text(*t),
    decreases t,
{
    let mut current = transpile_atom(&t.atom);
    let n = t.suffixes.len();
    let mut i: usize = 0;
    while i < n
        invariant
            0 <= i <= n,
            n == t.suffixes@.len(),
            term_text(*t) == suffixes_text(current@, t.suffixes@, i as int),
        decreases n - i,
    {
        current = transpile_suffix(current, &t.suffixes[i]);
        i = i + 1;
    }
    current
}

/// Lowers an atom.
pub fn transpile_atom(a: &Atom) -> (r: String)
    ensures
        r@ == atom_text(*a),
    decreases a,
{
    match a {
        Atom::Call { name, args } => {
            let ats = transpile_arg_list(args);
            transpile_call_with_args(name.as_str(), ats.as_slice())
        },
        Atom::Array { items } => transpile_array(items),
        Atom::StrLit { raw } => crate::escape::transpile_string(raw.as_str()),
        Atom::Number { text } => text.clone(),
        Atom::Ident { name } => name.clone(),
        Atom::Paren { inner } => transpile_expr(&**inner),
    }
}

/// Lowers an array literal: the lowered, comma-joined elements inside a
/// vector literal, with elements that lower to empty text skipped.
pub fn transpile_array(items: &Vec<Expr>) -> (r: String)
    ensures
        r@ == "vec!["@ + comma_join(arg_texts(items@, 0)) + "]"@,
    decreases items, 1int,
{
    let ats = transpile_arg_list(items);
    let joined = crate::text::join_comma(ats.as_slice());
    let mut out = String::from_str("vec![");
    out.append(joined.as_str());
    out.append("]");
    proof {
        assert(out@ =~= "vec!["@ + comma_join(arg_texts(items@, 0)) + "]"@);
    }
    out
}

/// Applies one suffix to the accumulated text `current`: an indexing suffix
/// wraps it in an integer-index access, a member suffix becomes either a
/// member rewrite (when the text is still a single identifier) or a literal
/// passthrough method call.
pub fn transpile_suffix(current: String, suffix: &Suffix) -> (r: String)
    ensures
        r@ == suffix_text(current@, *suffix),
    decreases suffix,
{
    match suffix {
        Suffix::Index { index } => {
            let ix = transpile_expr(index);
            if current.as_str().is_empty() || ix.as_str().is_empty() {
                String::new()
            } else {
                let ghost cur = current@;
                let mut out = current;
                out.append("[");
                out.append(ix.as_str());
                out.append(" as usize]");
                proof {
                    assert(out@ =~= cur + "["@ + ix@ + " as usize]"@);
                }
                out
            }
        },
        Suffix::Member { method, args } => {
            if method.as_str().is_empty() {
                return String::new();
            }
            let ats = transpile_arg_list(args);
            if crate::text::is_simple_identifier(current.as_str()) {
                transpile_member_call_with_args(current.as_str(), method.as_str(), ats.as_slice())
            } else {
                let joined = crate::text::join_comma(ats.as_slice());
                let ghost cur = current@;
                let mut out = current;
                out.append(".");
                out.append(method.as_str());
                out.append("(");
                out.append(joined.as_str());
                out.append(")");
                proof {
                    assert(out@ =~= cur + "."@ + method@ + "("@ + comma_join(arg_texts(args@, 0))
                        + ")"@);
                }
                out
            }
        },
    }
}

/// Desugars one pipeline step: inserts the accumulated left-operand text as
/// the first argument of the call described by the right operand.
pub fn transpile_pipeline(lhs: String, rhs: &Term) -> (r: String)
    ensures
        r@ == pipeline_text(lhs@, *rhs),
    decreases rhs,
{
    let ghost lv = lhs@;
    match &rhs.atom {
        Atom::Call { name, args } => {
            let mut ats = transpile_arg_list(args);
            let ghost base = crate::text::views_of(ats@);
            ats.insert(0, lhs);
            proof {
                assert(crate::text::views_of(ats@) =~= seq![lv] + base);
            }
            let mut current = transpile_call_with_args(name.as_str(), ats.as_slice());
            let n = rhs.suffixes.len();
            let mut i: usize = 0;
            while i < n
                invariant
                    0 <= i <= n,
                    n == rhs.suffixes@.len(),
                    pipeline_text(lv, *rhs) == suffixes_text(current@, rhs.suffixes@, i as int),
                decreases n - i,
            {
                current = transpile_suffix(current, &rhs.suffixes[i]);
                i = i + 1;
            }
            current
        },
        Atom::Ident { name } => {
            if rhs.suffixes.len() == 0 {
                let mut ats: Vec<String> = Vec::new();
                ats.push(lhs);
                proof {
                    assert(crate::text::views_of(ats@) =~= seq![lv]);
                }
                transpile_call_with_args(name.as_str(), ats.as_slice())
            } else {
                match &rhs.suffixes[0] {
                    Suffix::Member { method, args } => {
                        let mut ats = transpile_arg_list(args);
                        let ghost base = crate::text::views_of(ats@);
                        ats.insert(0, lhs);
                        proof {
                            assert(crate::text::views_of(ats@) =~= seq![lv] + base);
                        }
                        let mut current = transpile_member_call_with_args(
                            name.as_str(),
                            method.as_str(),
                            ats.as_slice(),
                        );
                        let n = rhs.suffixes.len();
                        let mut i: usize = 1;
                        while i < n
                            invariant
                                1 <= i <= n,
                                n == rhs.suffixes@.len(),
                                pipeline_text(lv, *rhs) == suffixes_text(
                                    current@,
                                    rhs.suffixes@,
                                    i as int,
                                ),
                            decreases n - i,
                        {
                            current = transpile_suffix(current, &rhs.suffixes[i]);
                            i = i + 1;
                        }
                        current
                    },
                    Suffix::Index { .. } => {
                        let mut current = name.clone();
                        let n = rhs.suffixes.len();
                        let mut i: usize = 0;
                        while i < n
                            invariant
                                0 <= i <= n,
                                n == rhs.suffixes@.len(),
                                suffixes_text(name@, rhs.suffixes@, 0) == suffixes_text(
                                    current@,
                                    rhs.suffixes@,
                                    i as int,
                                ),
                            decreases n - i,
                        {
                            current = transpile_suffix(current, &rhs.suffixes[i]);
                            i = i + 1;
                        }
                        let mut out = current;
                        out.append("(");
                        out.append(lhs.as_str());
                        out.append(")");
                        proof {
                            assert(out@ =~= suffixes_text(name@, rhs.suffixes@, 0) + "("@ + lv
                                + ")"@);
                        }
                        out
                    },
                }
            }
        },
        _ => {
            let mut current = transpile_atom(&rhs.atom);
            let ghost a0 = atom_text(rhs.atom);
            let n = rhs.suffixes.len();
            let mut i: usize = 0;
            while i < n
                invariant
                    0 <= i <= n,
                    n == rhs.suffixes@.len(),
                    suffixes_text(a0, rhs.suffixes@, 0) == suffixes_text(
                        current@,
                        rhs.suffixes@,
                        i as int,
                    ),
                decreases n - i,
            {
                current = transpile_suffix(current, &rhs.suffixes[i]);
                i = i + 1;
            }
            let mut out = current;
            out.append("(");
            out.append(lhs.as_str());
            out.append(")");
            proof {
                assert(out@ =~= suffixes_text(a0, rhs.suffixes@, 0) + "("@ + lv + ")"@);
            }
            out
        },
    }
}

/// Assembles an expression statement from its lowered expression: the text
/// with a terminating semicolon, or nothing when the expression lowered to
/// nothing.
pub fn transpile_expr_stmt(expr: String) -> (r: String)
    ensures
        r@ == (if expr@.len() == 0 {
            Seq::<char>::empty()
        } else {
            expr@ + ";"@
        }),
{
    if expr.as_str().is_empty() {
        String::new()
    } else {
        let mut out = expr;
        out.append(";");
        out
    }
}

/// Assembles a let statement from its name and lowered expression; it lowers
/// to nothing unless both are non-empty.
pub fn transpile_let_stmt(name: &str, expr: String) -> (r: String)
    ensures
        r@ == (if name@.len() == 0 || expr@.len() == 0 {
            Seq::<char>::empty()
        } else {
            "let "@ + name@ + " = "@ + expr@ + ";"@
        }),
{
    if name.is_empty() || expr.as_str().is_empty() {
        String::new()
    } else {
        let mut out = String::from_str("let ");
        out.append(name);
        out.append(" = ");
        out.append(expr.as_str());
        out.append(";");
        proof {
            assert(out@ =~= "let "@ + name@ + " = "@ + expr@ + ";"@);
        }
        out
    }
}

/// Assembles an if statement from its lowered condition and blocks; it
/// lowers to nothing when the condition or the then-block is empty, and
/// drops the else arm when that block is empty.
pub fn transpile_if_stmt(cond: String, then_block: String, else_block: String) -> (r: String)
    ensures
        r@ == (if cond@.len() == 0 || then_block@.len() == 0 {
            Seq::<char>::empty()
        } else if else_block@.len() == 0 {
            "if "@ + cond@ + " {\n"@ + then_block@ + "}"@
        } else {
            "if "@ + cond@ + " {\n"@ + then_block@ + "} else {\n"@ + else_block@ + "}"@
        }),
{
    if cond.as_str().is_empty() || then_block.as_str().is_empty() {
        return String::new();
    }
    let mut out = String::from_str("if ");
    out.append(cond.as_str());
    out.append(" {\n");
    out.append(then_block.as_str());
    if else_block.as_str().is_empty() {
        out.append("}");
        proof {
            assert(out@ =~= "if "@ + cond@ + " {\n"@ + then_block@ + "}"@);
        }
        out
    } else {
        out.append("} else {\n");
        out.append(else_block.as_str());
        out.append("}");
        proof {
            assert(out@ =~= "if "@ + cond@ + " {\n"@ + then_block@ + "} else {\n"@ + else_block@
                + "}"@);
        }
        out
    }
}

/// Assembles a loop statement from its lowered body; an empty body lowers to
/// nothing.
pub fn transpile_loop_stmt(body: String) -> (r: String)
    ensures
        r@ == (if body@.len() == 0 {
            Seq::<char>::empty()
        } else {
            "loop {\n"@ + body@ + "}"@
        }),
{
    if body.as_str().is_empty() {
        String::new()
    } else {
        let mut out = String::from_str("loop {\n");
        out.append(body.as_str());
        out.append("}");
        proof {
            assert(out@ =~= "loop {\n"@ + body@ + "}"@);
        }
        out
    }
}

/// The break statement, lowered unconditionally.
pub fn transpile_break_stmt() -> (r: String)
    ensures
        r@ == "break;"@,
{
    String::from_str("break;")
}

/// A function definition emits only its lowered block contents, spliced
/// directly into the surrounding output.
pub fn transpile_fn_def(body: String) -> (r: String)
    ensures
        r@ == body@,
{
    body
}

/// Lowers one statement, dispatching on its kind.
pub fn transpile_statement(s: &Stmt) -> (r: String)
    ensures
        r@ == stmt_text(*s),
    decreases s,
{
    match s {
        Stmt::ExprStmt { expr } => {
            let t = transpile_expr(expr);
            transpile_expr_stmt(t)
        },
        Stmt::LetStmt { name, expr } => {
            let t = transpile_expr(expr);
            transpile_let_stmt(name.as_str(), t)
        },
        Stmt::IfStmt { cond, then_block, else_block } => {
            let c = transpile_expr(cond);
            let tb = transpile_block(then_block);
            let eb = match else_block {
                Some(b) => transpile_block(b),
                None => String::new(),
            };
            transpile_if_stmt(c, tb, eb)
        },
        Stmt::LoopStmt { body } => {
            let b = transpile_block(body);
            transpile_loop_stmt(b)
        },
        Stmt::BreakStmt => transpile_break_stmt(),
        Stmt::FnDef { body } => {
            let b = transpile_block(body);
            transpile_fn_def(b)
        },
    }
}

/// Lowers a block: the lowered text of each statement, concatenated in
/// source order with no separators.
pub fn transpile_block(b: &Block) -> (r: String)
    ensures
        r@ == block_text(*b),
    decreases b,
{
    let mut out = String::new();
    let n = b.stmts.len();
    let mut i: usize = 0;
    proof {
        assert(out@ + stmts_text(b.stmts@, 0) =~= block_text(*b));
    }
    while i < n
        invariant
            0 <= i <= n,
            n == b.stmts@.len(),
            block_text(*b) == out@ + stmts_text(b.stmts@, i as int),
        decreases n - i,
    {
        let ghost before = out@;
        let st = transpile_statement(&b.stmts[i]);
        out.append(st.as_str());
        proof {
            assert(out@ + stmts_text(b.stmts@, i + 1 as int) =~= before + (stmt_text(
                b.stmts@[i as int],
            ) + stmts_text(b.stmts@, i + 1 as int)));
        }
        i = i + 1;
    }
    proof {
        assert(out@ + stmts_text(b.stmts@, n as int) =~= out@);
    }
    out
}

/// Lowers a whole program: the lowered text of each statement, concatenated
/// in source order with no separators.
pub fn transpile_program(p: &Program) -> (r: String)
    ensures
        r@ == program_text(*p),
{
    let mut out = String::new();
    let n = p.stmts.len();
    let mut i: usize = 0;
    proof {
        assert(out@ + stmts_text(p.stmts@, 0) =~= program_text(*p));
    }
    while i < n
        invariant
            0 <= i <= n,
            n == p.stmts@.len(),
            program_text(*p) == out@ + stmts_text(p.stmts@, i as int),
        decreases n - i,
    {
        let ghost before = out@;
        let st = transpile_statement(&p.stmts[i]);
        out.append(st.as_str());
        proof {
            assert(out@ + stmts_text(p.stmts@, i + 1 as int) =~= before + (stmt_text(
                p.stmts@[i as int],
            ) + stmts_text(p.stmts@, i + 1 as int)));
        }
        i = i + 1;
    }
    proof {
        assert(out@ + stmts_text(p.stmts@, n as int) =~= out@);
    }
    out
}

} // verus!
