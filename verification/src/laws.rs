//! Laws of the lowering: properties that relate several lowering functions,
//! stated over the spec functions that the transpiler's contracts use.

use vstd::prelude::*;

use crate::ast::Atom;
use crate::ast::BinOp;
use crate::ast::Block;
use crate::ast::Expr;
use crate::ast::Stmt;
use crate::ast::Suffix;
use crate::ast::Term;
use crate::lower::arg_texts;
use crate::lower::block_text;
use crate::lower::call_text;
use crate::lower::chain_text;
use crate::lower::expr_text;
use crate::lower::member_call_text;
use crate::lower::pipeline_text;
use crate::lower::stmt_text;
use crate::lower::stmts_text;
use crate::lower::suffix_text;
use crate::lower::suffixes_text;
use crate::lower::term_text;
use crate::text::is_simple_ident;

verus! {

/// An expression that is a single bare identifier with the given text.
pub open spec fn is_ident_expr(e: Expr, name: Seq<char>) -> bool {
    &&& e.rest@.len() == 0
    &&& e.first.suffixes@.len() == 0
    &&& e.first.atom matches Atom::Ident { name: n } && n@ == name
}

/// A bare identifier expression lowers to its own text.
pub proof fn lemma_ident_expr_text(e: Expr, name: Seq<char>)
    requires
        is_ident_expr(e, name),
    ensures
        expr_text(e) == name,
{
    assert(expr_text(e) == chain_text(term_text(e.first), e.rest@, 0));
    assert(chain_text(term_text(e.first), e.rest@, 0) == term_text(e.first));
    assert(term_text(e.first) == suffixes_text(name, e.first.suffixes@, 0));
}

/// A term of the shape `obj.method(args)`, with `obj` a bare identifier and
/// a non-empty method name, lowers through the member-call rewrite table
/// applied to its lowered arguments.
pub proof fn lemma_member_term_text(t: Term, obj: Seq<char>, method: Seq<char>)
    requires
        t.atom matches Atom::Ident { name } && name@ == obj,
        t.suffixes@.len() == 1,
        t.suffixes@[0] matches Suffix::Member { method: m, .. } && m@ == method,
        is_simple_ident(obj),
        method.len() > 0,
    ensures
        term_text(t) == member_call_text(obj, method, arg_texts(t.suffixes@[0]->Member_args@, 0)),
{
    assert(term_text(t) == suffixes_text(obj, t.suffixes@, 0));
    assert(suffixes_text(obj, t.suffixes@, 0) == suffixes_text(
        suffix_text(obj, t.suffixes@[0]),
        t.suffixes@,
        1,
    ));
    assert(suffix_text(obj, t.suffixes@[0]) == member_call_text(
        obj,
        method,
        arg_texts(t.suffixes@[0]->Member_args@, 0),
    ));
}

/// Routes `spider.get` through the rewrite table: the receiver and method
/// texts are a simple identifier and a non-empty name, and they match no
/// earlier table row, so the table gives the two fetch forms and otherwise
/// empty text.
proof fn lemma_spider_get_routing(args: Seq<Seq<char>>)
    ensures
        is_simple_ident("spider"@),
        "get"@.len() > 0,
        member_call_text("spider"@, "get"@, args) == (if args.len() == 1 {
            "zinc_std::spider::get("@ + args[0] + ", None)"@
        } else if args.len() == 2 {
            "zinc_std::spider::get("@ + args[0] + ", Some("@ + args[1] + "))"@
        } else {
            Seq::<char>::empty()
        }),
{
    reveal_strlit("spider");
    reveal_strlit("get");
    reveal_strlit("db");
    reveal_strlit("query");
    reveal_strlit("fs");
    reveal_strlit("read");
    reveal_strlit("write");
    reveal_strlit("html");
    reveal_strlit("select");
    reveal_strlit("json");
    reveal_strlit("parse");
    reveal_strlit("at");
    reveal_strlit("to_string");
    reveal_strlit("get_proxy");
    reveal_strlit("py");
    reveal_strlit("eval");
}

/// `spider.get(url)` lowers to the profile-less fetch call, for every
/// identifier-valued `url` token.
pub proof fn lemma_spider_get_without_profile(t: Term, url: Seq<char>)
    requires
        t.atom matches Atom::Ident { name } && name@ == "spider"@,
        t.suffixes@.len() == 1,
        t.suffixes@[0] matches Suffix::Member { method, args } && method@ == "get"@ && args@.len()
            == 1 && is_ident_expr(args@[0], url),
        is_simple_ident(url),
    ensures
        term_text(t) == "zinc_std::spider::get("@ + url + ", None)"@,
{
    let args = t.suffixes@[0]->Member_args@;
    lemma_ident_expr_text(args[0], url);
    assert(arg_texts(args, 1) =~= Seq::<Seq<char>>::empty());
    assert(url.len() > 0);
    assert(arg_texts(args, 0) =~= seq![url]);
    lemma_spider_get_routing(arg_texts(args, 0));
    lemma_member_term_text(t, "spider"@, "get"@);
}

/// `spider.get(url, profile)` lowers to the fetch call with the profile
/// argument populated, for all identifier-valued `url` and `profile` tokens.
pub proof fn lemma_spider_get_with_profile(t: Term, url: Seq<char>, profile: Seq<char>)
    requires
        t.atom matches Atom::Ident { name } && name@ == "spider"@,
        t.suffixes@.len() == 1,
        t.suffixes@[0] matches Suffix::Member { method, args } && method@ == "get"@ && args@.len()
            == 2 && is_ident_expr(args@[0], url) && is_ident_expr(args@[1], profile),
        is_simple_ident(url),
        is_simple_ident(profile),
    ensures
        term_text(t) == "zinc_std::spider::get("@ + url + ", Some("@ + profile + "))"@,
{
    let args = t.suffixes@[0]->Member_args@;
    lemma_ident_expr_text(args[0], url);
    lemma_ident_expr_text(args[1], profile);
    assert(arg_texts(args, 2) =~= Seq::<Seq<char>>::empty());
    assert(url.len() > 0 && profile.len() > 0);
    assert(arg_texts(args, 1) =~= seq![profile]);
    assert(arg_texts(args, 0) =~= seq![url, profile]);
    lemma_spider_get_routing(arg_texts(args, 0));
    lemma_member_term_text(t, "spider"@, "get"@);
}

/// `db.query` lowers only at exactly two arguments; any other count lowers
/// to empty text, not a diagnostic.
pub proof fn lemma_db_query_arity(args: Seq<Seq<char>>)
    ensures
        args.len() == 2 ==> member_call_text("db"@, "query"@, args) == "zinc_std::db::query("@
            + args[0] + ", "@ + args[1] + ")"@,
        args.len() != 2 ==> member_call_text("db"@, "query"@, args) == Seq::<char>::empty(),
{
}

/// The lowered arguments from position `i + 1` of a list that extends
/// another list by one leading element equal the lowered arguments from
/// position `i` of the shorter list.
proof fn lemma_arg_texts_shift(es2: Seq<Expr>, es: Seq<Expr>, i: int)
    requires
        es2.len() == es.len() + 1,
        forall|j: int| 0 <= j < es.len() ==> es2[j + 1] == #[trigger] es[j],
        0 <= i,
    ensures
        arg_texts(es2, i + 1) == arg_texts(es, i),
    decreases es.len() - i,
{
    if i >= es.len() {
        assert(arg_texts(es2, i + 1) =~= arg_texts(es, i));
    } else {
        lemma_arg_texts_shift(es2, es, i + 1);
        assert(es2[i + 1] == es[i]);
        assert(arg_texts(es2, i + 1) =~= arg_texts(es, i));
    }
}

/// An expression that is exactly the term `t`: the term itself, with an
/// empty operator chain.
pub open spec fn is_term_expr(e: Expr, t: Term) -> bool {
    &&& e.first == t
    &&& e.rest@.len() == 0
}

/// `a |> f(args)` lowers identically to `f(a, args)`, whenever the left
/// operand lowers to non-empty text.  (A left operand that lowers to empty
/// text is inserted as an empty first argument by the pipeline but dropped
/// from a direct argument list, so the two sides then differ.)
pub proof fn lemma_pipeline_call(pipe: Expr, direct: Term)
    requires
        pipe.rest@.len() == 1,
        pipe.rest@[0].op is Pipe,
        pipe.rest@[0].term.suffixes@.len() == 0,
        pipe.rest@[0].term.atom matches Atom::Call { name, args },
        direct.suffixes@.len() == 0,
        direct.atom matches Atom::Call { name, args },
        direct.atom->Call_name@ == pipe.rest@[0].term.atom->Call_name@,
        direct.atom->Call_args@.len() == pipe.rest@[0].term.atom->Call_args@.len() + 1,
        is_term_expr(direct.atom->Call_args@[0], pipe.first),
        forall|j: int|
            0 <= j < pipe.rest@[0].term.atom->Call_args@.len() ==> direct.atom->Call_args@[j + 1]
                == #[trigger] pipe.rest@[0].term.atom->Call_args@[j],
        term_text(pipe.first).len() > 0,
    ensures
        expr_text(pipe) == term_text(direct),
{
    let cur = term_text(pipe.first);
    let rhs = pipe.rest@[0].term;
    let args = rhs.atom->Call_args@;
    let args2 = direct.atom->Call_args@;
    assert(expr_text(pipe) == chain_text(cur, pipe.rest@, 0));
    assert(chain_text(cur, pipe.rest@, 0) == chain_text(pipeline_text(cur, rhs), pipe.rest@, 1));
    assert(pipeline_text(cur, rhs) == suffixes_text(
        call_text(rhs.atom->Call_name@, seq![cur] + arg_texts(args, 0)),
        rhs.suffixes@,
        0,
    ));
    assert(expr_text(args2[0]) == cur);
    lemma_arg_texts_shift(args2, args, 0);
    assert(arg_texts(args2, 0) =~= seq![cur] + arg_texts(args, 0));
    assert(term_text(direct) == suffixes_text(
        call_text(direct.atom->Call_name@, arg_texts(args2, 0)),
        direct.suffixes@,
        0,
    ));
}

/// `a |> f` with a bare identifier right operand lowers to `f(a)`: the
/// identifier itself becomes a one-argument call.
pub proof fn lemma_pipeline_bare_ident(pipe: Expr, f: Seq<char>)
    requires
        pipe.rest@.len() == 1,
        pipe.rest@[0].op is Pipe,
        pipe.rest@[0].term.suffixes@.len() == 0,
        pipe.rest@[0].term.atom matches Atom::Ident { name } && name@ == f,
    ensures
        expr_text(pipe) == call_text(f, seq![term_text(pipe.first)]),
{
    let cur = term_text(pipe.first);
    assert(expr_text(pipe) == chain_text(cur, pipe.rest@, 0));
    assert(chain_text(cur, pipe.rest@, 0) == chain_text(
        pipeline_text(cur, pipe.rest@[0].term),
        pipe.rest@,
        1,
    ));
}

/// `value |> obj.method(args)` lowers identically to the member rewrite (or
/// passthrough) of `obj.method(value, args)`, whenever the left operand
/// lowers to non-empty text.
pub proof fn lemma_pipeline_member(pipe: Expr, direct: Term, obj: Seq<char>, method: Seq<char>)
    requires
        pipe.rest@.len() == 1,
        pipe.rest@[0].op is Pipe,
        pipe.rest@[0].term.atom matches Atom::Ident { name } && name@ == obj,
        pipe.rest@[0].term.suffixes@.len() == 1,
        pipe.rest@[0].term.suffixes@[0] matches Suffix::Member { method: m, .. } && m@ == method,
        direct.atom matches Atom::Ident { name } && name@ == obj,
        direct.suffixes@.len() == 1,
        direct.suffixes@[0] matches Suffix::Member { method: m, .. } && m@ == method,
        direct.suffixes@[0]->Member_args@.len() == pipe.rest@[0].term.suffixes@[0]->Member_args@.len()
            + 1,
        is_term_expr(direct.suffixes@[0]->Member_args@[0], pipe.first),
        forall|j: int|
            0 <= j < pipe.rest@[0].term.suffixes@[0]->Member_args@.len()
                ==> direct.suffixes@[0]->Member_args@[j + 1]
                == #[trigger] pipe.rest@[0].term.suffixes@[0]->Member_args@[j],
        is_simple_ident(obj),
        method.len() > 0,
        term_text(pipe.first).len() > 0,
    ensures
        expr_text(pipe) == term_text(direct),
{
    let cur = term_text(pipe.first);
    let rhs = pipe.rest@[0].term;
    let args = rhs.suffixes@[0]->Member_args@;
    let args2 = direct.suffixes@[0]->Member_args@;
    assert(expr_text(pipe) == chain_text(cur, pipe.rest@, 0));
    assert(chain_text(cur, pipe.rest@, 0) == chain_text(pipeline_text(cur, rhs), pipe.rest@, 1));
    assert(pipeline_text(cur, rhs) == suffixes_text(
        member_call_text(obj, method, seq![cur] + arg_texts(args, 0)),
        rhs.suffixes@,
        1,
    ));
    assert(expr_text(args2[0]) == cur);
    lemma_arg_texts_shift(args2, args, 0);
    assert(arg_texts(args2, 0) =~= seq![cur] + arg_texts(args, 0));
    lemma_member_term_text(direct, obj, method);
}

/// The statements past position `i` of a concatenation, once `i` has passed
/// the first part, lower like the second part from the matching position.
proof fn lemma_stmts_text_tail(s1: Seq<Stmt>, s2: Seq<Stmt>, i: int)
    requires
        s1.len() <= i,
    ensures
        stmts_text(s1 + s2, i) == stmts_text(s2, i - s1.len()),
    decreases (s1 + s2).len() - i,
{
    let all = s1 + s2;
    if i < 0 || i >= all.len() {
        assert(stmts_text(all, i) =~= stmts_text(s2, i - s1.len()));
    } else {
        lemma_stmts_text_tail(s1, s2, i + 1);
        assert(all[i] == s2[i - s1.len()]);
        assert(stmts_text(all, i) =~= stmts_text(s2, i - s1.len()));
    }
}

/// Within the first part of a concatenation, lowering sees the first part's
/// statements and then the whole second part.
proof fn lemma_stmts_text_split(s1: Seq<Stmt>, s2: Seq<Stmt>, i: int)
    requires
        0 <= i <= s1.len(),
    ensures
        stmts_text(s1 + s2, i) == stmts_text(s1, i) + stmts_text(s2, 0),
    decreases s1.len() - i,
{
    let all = s1 + s2;
    if i == s1.len() {
        lemma_stmts_text_tail(s1, s2, i);
        assert(stmts_text(all, i) =~= stmts_text(s1, i) + stmts_text(s2, 0));
    } else {
        lemma_stmts_text_split(s1, s2, i + 1);
        assert(all[i] == s1[i]);
        assert(stmts_text(all, i) =~= stmts_text(s1, i) + stmts_text(s2, 0));
    }
}

/// Blocks lower by concatenation in source order: the text of statements
/// laid end to end is the texts of the parts, end to end.
pub proof fn lemma_stmts_concat(s1: Seq<Stmt>, s2: Seq<Stmt>)
    ensures
        stmts_text(s1 + s2, 0) == stmts_text(s1, 0) + stmts_text(s2, 0),
{
    lemma_stmts_text_split(s1, s2, 0);
}

/// A loop statement with a non-empty body nests that body, unchanged,
/// between its brace text.
pub proof fn lemma_loop_nesting(body: Block)
    requires
        block_text(body).len() > 0,
    ensures
        stmt_text(Stmt::LoopStmt { body }) == "loop {\n"@ + block_text(body) + "}"@,
{
}

/// An if statement with non-empty condition and then-block nests the blocks,
/// unchanged, between its brace text, with the else arm present exactly when
/// that block's text is non-empty.
pub proof fn lemma_if_nesting(cond: Expr, then_block: Block, else_block: Block)
    requires
        expr_text(cond).len() > 0,
        block_text(then_block).len() > 0,
    ensures
        block_text(else_block).len() == 0 ==> stmt_text(
            Stmt::IfStmt { cond, then_block, else_block: Some(else_block) },
        ) == "if "@ + expr_text(cond) + " {\n"@ + block_text(then_block) + "}"@,
        block_text(else_block).len() > 0 ==> stmt_text(
            Stmt::IfStmt { cond, then_block, else_block: Some(else_block) },
        ) == "if "@ + expr_text(cond) + " {\n"@ + block_text(then_block) + "} else {\n"@
            + block_text(else_block) + "}"@,
{
}

/// Three levels of nesting compose: a loop around a loop around an if, each
/// the sole statement of its enclosing block, lowers to the three wrappers
/// applied in order around the innermost body, with balanced brace text and
/// each body inside its own enclosing block.  The condition and the
/// innermost body must lower to non-empty text, else the silent-drop rule
/// erases the statement.
pub proof fn lemma_nested_blocks_three_levels(
    outer: Stmt,
    mid: Stmt,
    inner: Stmt,
    cond: Expr,
    b: Block,
)
    requires
        outer matches Stmt::LoopStmt { body: ob } && ob.stmts@ =~= seq![mid],
        mid matches Stmt::LoopStmt { body: mb } && mb.stmts@ =~= seq![inner],
        inner matches Stmt::IfStmt { cond: c, then_block: tb, else_block: None } && c == cond && tb
            == b,
        expr_text(cond).len() > 0,
        block_text(b).len() > 0,
    ensures
        stmt_text(outer) == "loop {\n"@ + ("loop {\n"@ + ("if "@ + expr_text(cond) + " {\n"@
            + block_text(b) + "}"@) + "}"@) + "}"@,
{
    let if_text = "if "@ + expr_text(cond) + " {\n"@ + block_text(b) + "}"@;
    assert(stmt_text(inner) == if_text);
    let mb = mid->LoopStmt_body;
    assert(stmts_text(mb.stmts@, 1) =~= Seq::<char>::empty());
    assert(block_text(mb) =~= if_text);
    let mid_text = "loop {\n"@ + if_text + "}"@;
    assert(stmt_text(mid) == mid_text);
    let ob = outer->LoopStmt_body;
    assert(stmts_text(ob.stmts@, 1) =~= Seq::<char>::empty());
    assert(block_text(ob) =~= mid_text);
    assert(stmt_text(outer) == "loop {\n"@ + mid_text + "}"@);
}

} // verus!
