//! Re-escaping of string literals.
//!
//! A string literal arrives as its source text between the quote delimiters:
//! a sequence of plain characters, escaped quotes `\"` and escaped
//! backslashes `\\`.  Lowering unescapes both escape forms — first every
//! `\"`, then every `\\`, each as a leftmost, non-overlapping replacement —
//! and wraps the result in a raw string literal of the target language, so
//! the content rides through without new escape ambiguity.

use vstd::prelude::*;

verus! {

/// `s` with every leftmost, non-overlapping occurrence of the two-character
/// pattern `['\\', second]` replaced by the single character `rep`, scanning
/// left to right — the effect of `str::replace` with a two-character pattern
/// and a one-character replacement.
pub open spec fn replace_esc(s: Seq<char>, second: char, rep: char) -> Seq<char>
    decreases s.len(),
{
    if s.len() < 2 {
        s
    } else if s[0] == '\\' && s[1] == second {
        seq![rep] + replace_esc(s.skip(2), second, rep)
    } else {
        seq![s[0]] + replace_esc(s.skip(1), second, rep)
    }
}

/// The unescaped content of a string literal: every `\"` becomes `"`, then
/// every `\\` becomes `\`.
pub open spec fn unescape(s: Seq<char>) -> Seq<char> {
    replace_esc(replace_esc(s, '"', '"'), '\\', '\\')
}

/// `t` with every quote escaped to `\"` and every backslash to `\\`: the
/// inverse direction of `unescape`.
pub open spec fn escape(t: Seq<char>) -> Seq<char>
    decreases t.len(),
{
    if t.len() == 0 {
        Seq::empty()
    } else if t[0] == '"' {
        seq!['\\', '"'] + escape(t.skip(1))
    } else if t[0] == '\\' {
        seq!['\\', '\\'] + escape(t.skip(1))
    } else {
        seq![t[0]] + escape(t.skip(1))
    }
}

/// Well-formed literal content: every backslash starts a `\"` or `\\` escape,
/// and no bare quote occurs.  This is exactly what the string grammar rule
/// admits between the delimiters.
pub open spec fn wf_escaped(s: Seq<char>) -> bool
    decreases s.len(),
{
    if s.len() == 0 {
        true
    } else if s[0] == '\\' {
        s.len() >= 2 && (s[1] == '"' || s[1] == '\\') && wf_escaped(s.skip(2))
    } else {
        s[0] != '"' && wf_escaped(s.skip(1))
    }
}

/// One-pass unescaping over well-formed content: `\"` to `"`, `\\` to `\`,
/// plain characters unchanged.
pub open spec fn unescape_units(s: Seq<char>) -> Seq<char>
    decreases s.len(),
{
    if s.len() == 0 {
        Seq::empty()
    } else if s.len() >= 2 && s[0] == '\\' && s[1] == '"' {
        seq!['"'] + unescape_units(s.skip(2))
    } else if s.len() >= 2 && s[0] == '\\' && s[1] == '\\' {
        seq!['\\'] + unescape_units(s.skip(2))
    } else {
        seq![s[0]] + unescape_units(s.skip(1))
    }
}

/// The first replacement pass, restricted to well-formed content: `\"`
/// becomes `"`, while `\\` pairs ride through untouched.
pub open spec fn quote_pass(s: Seq<char>) -> Seq<char>
    decreases s.len(),
{
    if s.len() == 0 {
        Seq::empty()
    } else if s.len() >= 2 && s[0] == '\\' && s[1] == '"' {
        seq!['"'] + quote_pass(s.skip(2))
    } else if s.len() >= 2 && s[0] == '\\' && s[1] == '\\' {
        seq!['\\', '\\'] + quote_pass(s.skip(2))
    } else {
        seq![s[0]] + quote_pass(s.skip(1))
    }
}

/// Intermediate shape after the first pass on well-formed content: every
/// backslash is the start of a `\\` pair.
pub open spec fn wf_mid(s: Seq<char>) -> bool
    decreases s.len(),
{
    if s.len() == 0 {
        true
    } else if s[0] == '\\' {
        s.len() >= 2 && s[1] == '\\' && wf_mid(s.skip(2))
    } else {
        wf_mid(s.skip(1))
    }
}

/// On well-formed content the first replacement pass turns exactly the `\"`
/// pairs into quotes and leaves `\\` pairs intact.
proof fn lemma_quote_pass(s: Seq<char>)
    requires
        wf_escaped(s),
    ensures
        replace_esc(s, '"', '"') == quote_pass(s),
        wf_mid(quote_pass(s)),
    decreases s.len(),
{
    if s.len() == 0 {
    } else if s[0] == '\\' && s[1] == '"' {
        lemma_quote_pass(s.skip(2));
        assert(replace_esc(s, '"', '"') =~= quote_pass(s));
        assert(quote_pass(s).skip(1) =~= quote_pass(s.skip(2)));
        assert(wf_mid(quote_pass(s)));
    } else if s[0] == '\\' && s[1] == '\\' {
        lemma_quote_pass(s.skip(2));
        // The scan emits the first backslash, then looks at the pair starting
        // at the second backslash, whose partner cannot be a quote.
        let s1 = s.skip(1);
        if s.len() == 2 {
            assert(s1.len() == 1);
            assert(replace_esc(s1, '"', '"') == s1);
            assert(s.skip(2) =~= Seq::<char>::empty());
            assert(replace_esc(s, '"', '"') =~= quote_pass(s));
        } else {
            assert(s1[1] == s[2]);
            assert(s[2] != '"') by {
                assert(wf_escaped(s.skip(2)));
            }
            assert(s1.skip(1) =~= s.skip(2));
            assert(replace_esc(s1, '"', '"') == seq![s1[0]] + replace_esc(s.skip(2), '"', '"'));
            assert(replace_esc(s, '"', '"') =~= quote_pass(s));
        }
        assert(quote_pass(s).skip(2) =~= quote_pass(s.skip(2)));
        assert(wf_mid(quote_pass(s)));
    } else {
        lemma_quote_pass(s.skip(1));
        assert(s[0] != '"' && s[0] != '\\');
        assert(replace_esc(s, '"', '"') =~= quote_pass(s));
        assert(quote_pass(s).skip(1) =~= quote_pass(s.skip(1)));
        assert(wf_mid(quote_pass(s)));
    }
}

/// On mid-shaped text the second replacement pass collapses every `\\` pair.
proof fn lemma_backslash_pass(m: Seq<char>)
    requires
        wf_mid(m),
    ensures
        replace_esc(m, '\\', '\\') == (if m.len() == 0 {
            Seq::<char>::empty()
        } else if m[0] == '\\' {
            seq!['\\'] + replace_esc(m.skip(2), '\\', '\\')
        } else {
            seq![m[0]] + replace_esc(m.skip(1), '\\', '\\')
        }),
{
}

/// The two replacement passes, on well-formed content, agree with the direct
/// one-pass unescaping.
pub proof fn lemma_unescape_units(s: Seq<char>)
    requires
        wf_escaped(s),
    ensures
        unescape(s) == unescape_units(s),
    decreases s.len(),
{
    lemma_quote_pass(s);
    if s.len() == 0 {
    } else if s[0] == '\\' && s[1] == '"' {
        lemma_unescape_units(s.skip(2));
        lemma_quote_pass(s.skip(2));
        assert(quote_pass(s).skip(1) =~= quote_pass(s.skip(2)));
        assert(unescape(s) =~= unescape_units(s));
    } else if s[0] == '\\' && s[1] == '\\' {
        lemma_unescape_units(s.skip(2));
        lemma_quote_pass(s.skip(2));
        lemma_backslash_pass(quote_pass(s));
        assert(quote_pass(s).skip(2) =~= quote_pass(s.skip(2)));
        assert(unescape(s) =~= unescape_units(s));
    } else {
        lemma_unescape_units(s.skip(1));
        lemma_quote_pass(s.skip(1));
        assert(quote_pass(s).skip(1) =~= quote_pass(s.skip(1)));
        lemma_backslash_pass(quote_pass(s));
        assert(unescape(s) =~= unescape_units(s));
    }
}

/// Escaped text is well-formed literal content.
pub proof fn lemma_escape_wf(t: Seq<char>)
    ensures
        wf_escaped(escape(t)),
    decreases t.len(),
{
    if t.len() == 0 {
    } else {
        lemma_escape_wf(t.skip(1));
        if t[0] == '"' || t[0] == '\\' {
            assert(escape(t).skip(2) =~= escape(t.skip(1)));
        } else {
            assert(escape(t).skip(1) =~= escape(t.skip(1)));
        }
    }
}

/// One-pass unescaping undoes escaping.
proof fn lemma_units_escape(t: Seq<char>)
    ensures
        unescape_units(escape(t)) == t,
    decreases t.len(),
{
    if t.len() == 0 {
    } else {
        lemma_units_escape(t.skip(1));
        if t[0] == '"' || t[0] == '\\' {
            assert(escape(t).skip(2) =~= escape(t.skip(1)));
        } else {
            assert(escape(t)[0] == t[0]);
            assert(escape(t).skip(1) =~= escape(t.skip(1)));
        }
        assert(unescape_units(escape(t)) =~= t);
    }
}

/// Unescaping undoes escaping: every content round-trips through the escaped
/// form.
pub proof fn lemma_unescape_escape(t: Seq<char>)
    ensures
        unescape(escape(t)) == t,
{
    lemma_escape_wf(t);
    lemma_unescape_units(escape(t));
    lemma_units_escape(t);
}

/// Escaping undoes unescaping on well-formed content: re-escaping the
/// unescaped content reproduces the original literal text exactly.
pub proof fn lemma_escape_unescape(s: Seq<char>)
    requires
        wf_escaped(s),
    ensures
        escape(unescape(s)) == s,
    decreases s.len(),
{
    lemma_unescape_units(s);
    if s.len() == 0 {
        assert(escape(unescape(s)) =~= s);
    } else if s[0] == '\\' && s[1] == '"' {
        lemma_escape_unescape(s.skip(2));
        lemma_unescape_units(s.skip(2));
        assert(unescape_units(s).skip(1) =~= unescape_units(s.skip(2)));
        assert(escape(unescape(s)) =~= s);
    } else if s[0] == '\\' && s[1] == '\\' {
        lemma_escape_unescape(s.skip(2));
        lemma_unescape_units(s.skip(2));
        assert(unescape_units(s).skip(1) =~= unescape_units(s.skip(2)));
        assert(escape(unescape(s)) =~= s);
    } else {
        lemma_escape_unescape(s.skip(1));
        lemma_unescape_units(s.skip(1));
        assert(unescape_units(s).skip(1) =~= unescape_units(s.skip(1)));
        assert(escape(unescape(s)) =~= s);
    }
}

/// One replacement pass of the two-character escape pattern, as an
/// executable scan.
fn replace_esc_chars(v: &Vec<char>, second: char, rep: char) -> (r: Vec<char>)
    ensures
        r@ == replace_esc(v@, second, rep),
{
    let n = v.len();
    let mut out: Vec<char> = Vec::new();
    let mut i: usize = 0;
    proof {
        assert(v@.skip(0) =~= v@);
        assert(out@ + replace_esc(v@.skip(0), second, rep) =~= replace_esc(v@, second, rep));
    }
    while i < n
        invariant
            0 <= i <= n,
            n == v@.len(),
            replace_esc(v@, second, rep) == out@ + replace_esc(v@.skip(i as int), second, rep),
        decreases n - i,
    {
        let ghost before = out@;
        let ghost tail = v@.skip(i as int);
        if v[i] == '\\' && i + 1 < n && v[i + 1] == second {
            out.push(rep);
            proof {
                assert(tail[0] == '\\' && tail[1] == second);
                assert(tail.skip(2) =~= v@.skip(i + 2 as int));
                assert(out@ + replace_esc(v@.skip(i + 2 as int), second, rep) =~= before
                    + replace_esc(tail, second, rep));
            }
            i = i + 2;
        } else {
            out.push(v[i]);
            proof {
                assert(tail[0] == v@[i as int]);
                if tail.len() >= 2 {
                    assert(tail.skip(1) =~= v@.skip(i + 1 as int));
                    assert(out@ + replace_esc(v@.skip(i + 1 as int), second, rep) =~= before
                        + replace_esc(tail, second, rep));
                } else {
                    assert(v@.skip(i + 1 as int) =~= Seq::<char>::empty());
                    assert(out@ + replace_esc(v@.skip(i + 1 as int), second, rep) =~= before
                        + replace_esc(tail, second, rep));
                }
            }
            i = i + 1;
        }
    }
    proof {
        assert(v@.skip(n as int) =~= Seq::<char>::empty());
        assert(out@ + replace_esc(v@.skip(n as int), second, rep) =~= out@);
    }
    out
}

/// The output text of a string literal whose source text, delimiters
/// included, is `raw`: the unescaped content wrapped in a raw string literal.
/// Source text shorter than the two delimiters lowers to empty text.
pub open spec fn string_text(raw: Seq<char>) -> Seq<char> {
    if raw.len() < 2 {
        Seq::empty()
    } else {
        "r#\""@ + unescape(raw.subrange(1, raw.len() as int - 1)) + "\"#"@
    }
}

/// Lowers a string literal from its source text, delimiters included:
/// unescapes `\"` and `\\` and re-wraps the content as a raw string literal.
pub fn transpile_string(raw: &str) -> (r: String)
    ensures
        r@ == string_text(raw@),
{
    let n = raw.unicode_len();
    if n < 2 {
        return String::new();
    }
    let chars = crate::text::str_to_chars(raw);
    let mut inner: Vec<char> = Vec::new();
    let mut i: usize = 1;
    while i < n - 1
        invariant
            1 <= i <= n - 1,
            n == chars@.len(),
            chars@ == raw@,
            inner@ == raw@.subrange(1, i as int),
        decreases n - i,
    {
        inner.push(chars[i]);
        proof {
            assert(inner@ =~= raw@.subrange(1, i + 1 as int));
        }
        i = i + 1;
    }
    let pass1 = replace_esc_chars(&inner, '"', '"');
    let pass2 = replace_esc_chars(&pass1, '\\', '\\');
    let body = crate::text::chars_to_string(&pass2);
    let mut out = String::new();
    out.append("r#\"");
    out.append(body.as_str());
    out.append("\"#");
    proof {
        assert(out@ =~= string_text(raw@));
    }
    out
}

} // verus!
