//! Character classes of the Zinc lexical grammar and small text utilities
//! shared by the lexer and the code generator.

use vstd::prelude::*;

verus! {

/// An ASCII letter or underscore: the characters that may start an identifier.
pub open spec fn is_ident_start_char(c: char) -> bool {
    ('a' as u32) <= (c as u32) && (c as u32) <= ('z' as u32)
        || ('A' as u32) <= (c as u32) && (c as u32) <= ('Z' as u32)
        || c == '_'
}

/// An ASCII letter, digit or underscore: the characters that may continue an
/// identifier.
pub open spec fn is_ident_char(c: char) -> bool {
    is_ident_start_char(c) || is_digit_char(c)
}

/// An ASCII decimal digit.
pub open spec fn is_digit_char(c: char) -> bool {
    ('0' as u32) <= (c as u32) && (c as u32) <= ('9' as u32)
}

/// Whitespace between tokens: space, tab, carriage return, newline.
pub open spec fn is_space_char(c: char) -> bool {
    c == ' ' || c == '\t' || c == '\r' || c == '\n'
}

pub fn ident_start_char(c: char) -> (r: bool)
    ensures
        r == is_ident_start_char(c),
{
    let u = c as u32;
    ('a' as u32) <= u && u <= ('z' as u32) || ('A' as u32) <= u && u <= ('Z' as u32) || c == '_'
}

pub fn digit_char(c: char) -> (r: bool)
    ensures
        r == is_digit_char(c),
{
    let u = c as u32;
    ('0' as u32) <= u && u <= ('9' as u32)
}

pub fn ident_char(c: char) -> (r: bool)
    ensures
        r == is_ident_char(c),
{
    ident_start_char(c) || digit_char(c)
}

pub fn space_char(c: char) -> (r: bool)
    ensures
        r == is_space_char(c),
{
    c == ' ' || c == '\t' || c == '\r' || c == '\n'
}

/// A non-empty run of an identifier-start character followed by identifier
/// characters: the shape of a single bare identifier token.
pub open spec fn is_simple_ident(s: Seq<char>) -> bool {
    &&& s.len() > 0
    &&& is_ident_start_char(s[0])
    &&& forall|i: int| 1 <= i < s.len() ==> is_ident_char(#[trigger] s[i])
}

/// Whether `value` is a single bare identifier token.  The member-call
/// rewrite applies only when the accumulated receiver text still has this
/// shape; any longer receiver text passes through as a literal method call.
pub fn is_simple_identifier(value: &str) -> (r: bool)
    ensures
        r == is_simple_ident(value@),
{
    let n = value.unicode_len();
    if n == 0 {
        return false;
    }
    if !ident_start_char(value.get_char(0)) {
        return false;
    }
    let mut i: usize = 1;
    while i < n
        invariant
            1 <= i <= n,
            n == value@.len(),
            is_ident_start_char(value@[0]),
            forall|j: int| 1 <= j < i ==> is_ident_char(#[trigger] value@[j]),
        decreases n - i,
    {
        if !ident_char(value.get_char(i)) {
            return false;
        }
        i = i + 1;
    }
    true
}

/// Relies on `String`'s `FromIterator<char>` implementation: collecting an
/// iterator of characters yields the string of exactly those characters, in
/// order.
#[verifier::external_body]
pub fn chars_to_string(v: &Vec<char>) -> (r: String)
    ensures
        r@ == v@,
{
    v.iter().collect()
}

/// The characters of `s`, as a vector.
pub fn str_to_chars(s: &str) -> (v: Vec<char>)
    ensures
        v@ == s@,
{
    let n = s.unicode_len();
    let mut v: Vec<char> = Vec::new();
    let mut i: usize = 0;
    while i < n
        invariant
            0 <= i <= n,
            n == s@.len(),
            v@ == s@.subrange(0, i as int),
        decreases n - i,
    {
        let c = s.get_char(i);
        v.push(c);
        proof {
            assert(v@ =~= s@.subrange(0, i + 1 as int));
        }
        i = i + 1;
    }
    proof {
        assert(v@ =~= s@);
    }
    v
}

/// Whether two string slices hold the same characters.
pub fn str_eq(a: &str, b: &str) -> (r: bool)
    ensures
        r == (a@ == b@),
{
    let na = a.unicode_len();
    let nb = b.unicode_len();
    if na != nb {
        proof {
            assert(a@ != b@);
        }
        return false;
    }
    let mut i: usize = 0;
    while i < na
        invariant
            0 <= i <= na,
            na == a@.len(),
            na == b@.len(),
            forall|j: int| 0 <= j < i ==> a@[j] == #[trigger] b@[j],
        decreases na - i,
    {
        if a.get_char(i) != b.get_char(i) {
            return false;
        }
        i = i + 1;
    }
    proof {
        assert(a@ =~= b@);
    }
    true
}

/// The comma-separated join of `ts`: the texts in order, with `", "` between
/// neighbours.
pub open spec fn comma_join(ts: Seq<Seq<char>>) -> Seq<char> {
    if ts.len() == 0 {
        Seq::empty()
    } else {
        ts[0] + comma_join_rest(ts, 1)
    }
}

/// The tail of a comma-separated join: `", "` and a text, for each position
/// from `i` on.
pub open spec fn comma_join_rest(ts: Seq<Seq<char>>, i: int) -> Seq<char>
    decreases ts.len() - i,
{
    if i < 0 || i >= ts.len() {
        Seq::empty()
    } else {
        ", "@ + ts[i] + comma_join_rest(ts, i + 1)
    }
}

/// The views of a sequence of strings.
pub open spec fn views_of(ss: Seq<String>) -> Seq<Seq<char>> {
    Seq::new(ss.len(), |i: int| ss[i]@)
}

/// Joins `items` with `", "`, as `[T]::join` does.
pub fn join_comma(items: &[String]) -> (r: String)
    ensures
        r@ == comma_join(views_of(items@)),
{
    let ghost ts = views_of(items@);
    if items.len() == 0 {
        return String::new();
    }
    let mut out = items[0].clone();
    let mut i: usize = 1;
    while i < items.len()
        invariant
            1 <= i <= items@.len(),
            ts == views_of(items@),
            ts.len() == items@.len(),
            comma_join(ts) == out@ + comma_join_rest(ts, i as int),
        decreases items@.len() - i,
    {
        let ghost before = out@;
        out.append(", ");
        out.append(items[i].as_str());
        proof {
            assert(out@ + comma_join_rest(ts, i + 1 as int) =~= before + (", "@ + ts[i as int]
                + comma_join_rest(ts, i + 1 as int)));
        }
        i = i + 1;
    }
    proof {
        assert(comma_join(ts) =~= out@);
    }
    out
}

} // verus!
