//! Diagnostics: the structured error record of the transpiler, source
//! locations, and the JSON rendering of the record.

use vstd::prelude::*;

verus! {

/// A structured diagnostic: a one-based source location, the rendered
/// explanation, and a suggested fix.
#[derive(Debug)]
pub struct ZincError {
    pub line: usize,
    pub column: usize,
    pub message: String,
    pub suggestion: String,
}

/// The one-based line of character offset `pos` in `s`: one more than the
/// number of newlines before the offset.
pub open spec fn line_of(s: Seq<char>, pos: int) -> int
    decreases pos,
{
    if pos <= 0 {
        1
    } else {
        line_of(s, pos - 1) + if s[pos - 1] == '\n' {
            1int
        } else {
            0int
        }
    }
}

/// The one-based column of character offset `pos` in `s`: one more than the
/// number of characters since the last newline.
pub open spec fn col_of(s: Seq<char>, pos: int) -> int
    decreases pos,
{
    if pos <= 0 {
        1
    } else if s[pos - 1] == '\n' {
        1
    } else {
        col_of(s, pos - 1) + 1
    }
}

/// The line and column of character offset `pos` in `src`.
pub fn line_col(src: &Vec<char>, pos: usize) -> (r: (usize, usize))
    requires
        pos <= src@.len(),
        pos < usize::MAX,
    ensures
        r.0 == line_of(src@, pos as int),
        r.1 == col_of(src@, pos as int),
{
    let mut line: usize = 1;
    let mut col: usize = 1;
    let mut i: usize = 0;
    while i < pos
        invariant
            0 <= i <= pos <= src@.len(),
            pos < usize::MAX,
            line == line_of(src@, i as int),
            col == col_of(src@, i as int),
            line <= i + 1,
            col <= i + 1,
        decreases pos - i,
    {
        if src[i] == '\n' {
            line = line + 1;
            col = 1;
        } else {
            col = col + 1;
        }
        i = i + 1;
    }
    (line, col)
}

/// The decimal digit character of `d`.
pub open spec fn digit_char_of(d: int) -> char {
    if d == 0 {
        '0'
    } else if d == 1 {
        '1'
    } else if d == 2 {
        '2'
    } else if d == 3 {
        '3'
    } else if d == 4 {
        '4'
    } else if d == 5 {
        '5'
    } else if d == 6 {
        '6'
    } else if d == 7 {
        '7'
    } else if d == 8 {
        '8'
    } else {
        '9'
    }
}

/// The decimal digits of a non-negative number, most significant first.
pub open spec fn dec_digits(n: int) -> Seq<char>
    decreases n,
{
    if n < 10 {
        seq![digit_char_of(n)]
    } else {
        dec_digits(n / 10) + seq![digit_char_of(n % 10)]
    }
}

fn digit_char_exec(d: usize) -> (r: char)
    requires
        d < 10,
    ensures
        r == digit_char_of(d as int),
{
    if d == 0 {
        '0'
    } else if d == 1 {
        '1'
    } else if d == 2 {
        '2'
    } else if d == 3 {
        '3'
    } else if d == 4 {
        '4'
    } else if d == 5 {
        '5'
    } else if d == 6 {
        '6'
    } else if d == 7 {
        '7'
    } else if d == 8 {
        '8'
    } else {
        '9'
    }
}

/// Appends the decimal digits of `n` to `out`.
fn push_decimal(n: usize, out: &mut Vec<char>)
    ensures
        final(out)@ == old(out)@ + dec_digits(n as int),
    decreases n,
{
    if n < 10 {
        out.push(digit_char_exec(n));
        proof {
            assert(out@ =~= old(out)@ + dec_digits(n as int));
        }
    } else {
        push_decimal(n / 10, out);
        out.push(digit_char_exec(n % 10));
        proof {
            assert(out@ =~= old(out)@ + dec_digits(n as int));
        }
    }
}

/// The JSON escaping of one character: quote and backslash get a backslash
/// escape, the named control characters their short forms, other control
/// characters a `\u00..` form with lowercase hex digits, and everything else
/// rides through.
pub open spec fn json_escape_char(c: char) -> Seq<char> {
    if c == '"' {
        seq!['\\', '"']
    } else if c == '\\' {
        seq!['\\', '\\']
    } else if c == '\n' {
        seq!['\\', 'n']
    } else if c == '\r' {
        seq!['\\', 'r']
    } else if c == '\t' {
        seq!['\\', 't']
    } else if c as u32 == 8 {
        seq!['\\', 'b']
    } else if c as u32 == 12 {
        seq!['\\', 'f']
    } else if (c as u32) < 32 {
        seq!['\\', 'u', '0', '0', hex_char_of((c as u32) as int / 16), hex_char_of(
            (c as u32) as int % 16,
        )]
    } else {
        seq![c]
    }
}

/// The lowercase hexadecimal digit character of `d`.
pub open spec fn hex_char_of(d: int) -> char {
    if d < 10 {
        digit_char_of(d)
    } else if d == 10 {
        'a'
    } else if d == 11 {
        'b'
    } else if d == 12 {
        'c'
    } else if d == 13 {
        'd'
    } else if d == 14 {
        'e'
    } else {
        'f'
    }
}

/// The JSON escaping of a text, character by character.
pub open spec fn json_escape(s: Seq<char>) -> Seq<char>
    decreases s.len(),
{
    if s.len() == 0 {
        Seq::empty()
    } else {
        json_escape_char(s[0]) + json_escape(s.skip(1))
    }
}

fn hex_char_exec(d: u32) -> (r: char)
    requires
        d < 16,
    ensures
        r == hex_char_of(d as int),
{
    if d < 10 {
        digit_char_exec(d as usize)
    } else if d == 10 {
        'a'
    } else if d == 11 {
        'b'
    } else if d == 12 {
        'c'
    } else if d == 13 {
        'd'
    } else if d == 14 {
        'e'
    } else {
        'f'
    }
}

/// Appends the JSON escaping of one character to `out`.
fn push_json_escaped_char(c: char, out: &mut Vec<char>)
    ensures
        final(out)@ == old(out)@ + json_escape_char(c),
{
    let u = c as u32;
    if c == '"' {
        out.push('\\');
        out.push('"');
    } else if c == '\\' {
        out.push('\\');
        out.push('\\');
    } else if c == '\n' {
        out.push('\\');
        out.push('n');
    } else if c == '\r' {
        out.push('\\');
        out.push('r');
    } else if c == '\t' {
        out.push('\\');
        out.push('t');
    } else if u == 8 {
        out.push('\\');
        out.push('b');
    } else if u == 12 {
        out.push('\\');
        out.push('f');
    } else if u < 32 {
        out.push('\\');
        out.push('u');
        out.push('0');
        out.push('0');
        out.push(hex_char_exec(u / 16));
        out.push(hex_char_exec(u % 16));
    } else {
        out.push(c);
    }
    proof {
        assert(out@ =~= old(out)@ + json_escape_char(c));
    }
}

/// Appends the JSON escaping of `s` to `out`.
fn push_json_escaped(s: &str, out: &mut Vec<char>)
    ensures
        final(out)@ == old(out)@ + json_escape(s@),
{
    let n = s.unicode_len();
    let mut i: usize = 0;
    proof {
        assert(s@.skip(0) =~= s@);
        assert(out@ + json_escape(s@.skip(0)) =~= old(out)@ + json_escape(s@));
    }
    while i < n
        invariant
            0 <= i <= n,
            n == s@.len(),
            old(out)@ + json_escape(s@) == out@ + json_escape(s@.skip(i as int)),
        decreases n - i,
    {
        let ghost before = out@;
        let c = s.get_char(i);
        push_json_escaped_char(c, out);
        proof {
            assert(s@.skip(i as int).skip(1) =~= s@.skip(i + 1 as int));
            assert(out@ + json_escape(s@.skip(i + 1 as int)) =~= before + json_escape(
                s@.skip(i as int),
            ));
        }
        i = i + 1;
    }
    proof {
        assert(s@.skip(n as int) =~= Seq::<char>::empty());
        assert(out@ + json_escape(s@.skip(n as int)) =~= out@);
    }
}

/// The JSON rendering of a diagnostic with the given fields: an object with
/// `line`, `column`, `message` and `suggestion` members, in that order, with
/// no spacing.
pub open spec fn error_json(line: int, column: int, message: Seq<char>, suggestion: Seq<char>) -> Seq<
    char,
> {
    "{\"line\":"@ + dec_digits(line) + ",\"column\":"@ + dec_digits(column) + ",\"message\":\""@
        + json_escape(message) + "\",\"suggestion\":\""@ + json_escape(suggestion) + "\"}"@
}

/// Renders the given fields as the diagnostic JSON object.
fn render_error_json(line: usize, column: usize, message: &str, suggestion: &str) -> (r: String)
    ensures
        r@ == error_json(line as int, column as int, message@, suggestion@),
{
    let mut buf: Vec<char> = crate::text::str_to_chars("{\"line\":");
    push_decimal(line, &mut buf);
    let ghost head_so_far = buf@;
    let mid = crate::text::str_to_chars(",\"column\":");
    let mut j: usize = 0;
    while j < mid.len()
        invariant
            0 <= j <= mid@.len(),
            mid@ == ",\"column\":"@,
            buf@ == head_so_far + mid@.subrange(0, j as int),
        decreases mid@.len() - j,
    {
        buf.push(mid[j]);
        proof {
            assert(buf@ =~= head_so_far + mid@.subrange(0, j + 1 as int));
        }
        j = j + 1;
    }
    proof {
        assert(mid@.subrange(0, mid@.len() as int) =~= mid@);
    }
    push_decimal(column, &mut buf);
    let head = crate::text::chars_to_string(&buf);
    let mut tail: Vec<char> = Vec::new();
    push_json_escaped(message, &mut tail);
    let ghost t1 = tail@;
    let tail_str = crate::text::chars_to_string(&tail);
    let mut tail2: Vec<char> = Vec::new();
    push_json_escaped(suggestion, &mut tail2);
    let tail2_str = crate::text::chars_to_string(&tail2);
    let mut out = head;
    out.append(",\"message\":\"");
    out.append(tail_str.as_str());
    out.append("\",\"suggestion\":\"");
    out.append(tail2_str.as_str());
    out.append("\"}");
    proof {
        assert(out@ =~= error_json(line as int, column as int, message@, suggestion@));
    }
    out
}

impl ZincError {
    /// Renders this diagnostic as its JSON object.
    pub fn to_json(&self) -> (r: String)
        ensures
            r@ == error_json(self.line as int, self.column as int, self.message@, self.suggestion@),
    {
        render_error_json(self.line, self.column, self.message.as_str(), self.suggestion.as_str())
    }
}

/// The fixed suggestion of every syntax diagnostic.
pub open spec fn syntax_suggestion() -> Seq<char> {
    "Check syntax near the reported location."@
}

/// The diagnostic of a syntactically valid program with no statements.
pub open spec fn is_no_statements_error(e: ZincError) -> bool {
    &&& e.line == 0
    &&& e.column == 0
    &&& e.message@ == "No statements found"@
    &&& e.suggestion@ == "Add at least one statement."@
}

/// Whether `e` is a syntax diagnostic for source text `src`: it carries the
/// fixed suggestion and the one-based line and column of some offset in the
/// text.
pub open spec fn is_syntax_error_for(e: ZincError, src: Seq<char>) -> bool {
    &&& e.suggestion@ == syntax_suggestion()
    &&& exists|pos: int|
        0 <= pos <= src.len() && e.line == line_of(src, pos) && e.column == #[trigger] col_of(
            src,
            pos,
        )
}

/// The "no statements" diagnostic.
pub fn no_statements_error() -> (e: ZincError)
    ensures
        is_no_statements_error(e),
{
    ZincError {
        line: 0,
        column: 0,
        message: String::from_str("No statements found"),
        suggestion: String::from_str("Add at least one statement."),
    }
}

/// A syntax diagnostic at character offset `pos` of `src`, with the given
/// message.
pub fn syntax_error_at(src: &Vec<char>, pos: usize, message: &str) -> (e: ZincError)
    requires
        pos <= src@.len(),
        pos < usize::MAX,
    ensures
        is_syntax_error_for(e, src@),
        e.message@ == message@,
        e.line == line_of(src@, pos as int),
        e.column == col_of(src@, pos as int),
{
    let (line, column) = line_col(src, pos);
    let e = ZincError {
        line,
        column,
        message: String::from_str(message),
        suggestion: String::from_str("Check syntax near the reported location."),
    };
    proof {
        assert(e.line == line_of(src@, pos as int) && e.column == col_of(src@, pos as int));
    }
    e
}

/// Builds the JSON text of a generic diagnostic: location zero and the fixed
/// suggestion, around the given message.
pub fn format_error_json(err: &str) -> (r: String)
    ensures
        r@ == error_json(0, 0, err@, syntax_suggestion()),
{
    render_error_json(0, 0, err, "Check syntax near the reported location.")
}

} // verus!
