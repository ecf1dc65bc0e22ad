//! The lexical grammar: source text to tokens.
//!
//! Tokens are identifiers (with the six keywords split off), number
//! literals, string literals, and the fixed punctuation and operator
//! spellings.  Whitespace and `//` line comments separate tokens and are
//! discarded.  The scanner fails on the first character that cannot start a
//! token, and on an unterminated or badly escaped string literal.

use vstd::prelude::*;

use crate::ast::wf_number;
use crate::ast::wf_strlit;
use crate::escape::wf_escaped;
use crate::text::is_digit_char;
use crate::text::is_ident_char;
use crate::text::is_ident_start_char;
use crate::text::is_simple_ident;
use crate::text::is_space_char;

verus! {

/// The kind of a token.
#[derive(Clone, Copy)]
pub enum TokKind {
    KwLet,
    KwIf,
    KwElse,
    KwLoop,
    KwBreak,
    KwFn,
    Ident,
    Number,
    Str,
    LParen,
    RParen,
    LBrace,
    RBrace,
    LBracket,
    RBracket,
    Comma,
    Dot,
    Assign,
    Pipe,
    Plus,
    EqEq,
    Ne,
    Ge,
    Le,
    Gt,
    Lt,
}

/// One token: its kind, its source text (meaningful for identifier, number
/// and string tokens), and the character offset where it starts.
pub struct Token {
    pub kind: TokKind,
    pub text: String,
    pub pos: usize,
}

/// A scanner failure.
pub enum LexErr {
    /// A character that cannot start a token, at the given offset.
    BadChar { pos: usize },
    /// A string literal that reaches the end of input unterminated; the
    /// offset is the end of input.
    Unterminated { pos: usize },
}

/// What the scanner guarantees of a produced token's text.
pub open spec fn wf_token_text(t: Token) -> bool {
    match t.kind {
        TokKind::Ident => is_simple_ident(t.text@),
        TokKind::Number => wf_number(t.text@),
        TokKind::Str => wf_strlit(t.text@),
        _ => true,
    }
}

/// What the scanner guarantees of a produced token, against a source of
/// `n` characters.
pub open spec fn wf_token(t: Token, n: int) -> bool {
    &&& t.pos <= n
    &&& wf_token_text(t)
}

/// The text guarantee, over a whole token sequence.
pub open spec fn wf_tokens_texts(ts: Seq<Token>) -> bool {
    forall|i: int| 0 <= i < ts.len() ==> wf_token_text(#[trigger] ts[i])
}

pub open spec fn wf_tokens(ts: Seq<Token>, n: int) -> bool {
    forall|i: int| 0 <= i < ts.len() ==> wf_token(#[trigger] ts[i], n)
}

/// Whether `s` holds only whitespace and line comments: the shape of an
/// input that scans to zero tokens.
pub open spec fn ws_comments_only(s: Seq<char>) -> bool
    decreases s.len(), 0int,
{
    if s.len() == 0 {
        true
    } else if is_space_char(s[0]) {
        ws_comments_only(s.skip(1))
    } else if s.len() >= 2 && s[0] == '/' && s[1] == '/' {
        in_comment_only(s.skip(2))
    } else {
        false
    }
}

/// Whether `s`, read from inside a line comment, holds only the comment's
/// remainder followed by whitespace and further comments.
pub open spec fn in_comment_only(s: Seq<char>) -> bool
    decreases s.len(), 1int,
{
    if s.len() == 0 {
        true
    } else if s[0] == '\n' {
        ws_comments_only(s.skip(1))
    } else {
        in_comment_only(s.skip(1))
    }
}

/// A token at the specification level: its kind, its text, and the
/// character offset where it starts.
pub open spec fn tok_view(t: Token) -> (TokKind, Seq<char>, int) {
    (t.kind, t.text@, t.pos as int)
}

pub open spec fn toks_view(ts: Seq<Token>) -> Seq<(TokKind, Seq<char>, int)> {
    Seq::new(ts.len(), |i: int| tok_view(ts[i]))
}

/// Prepends one token to a scan outcome.
pub open spec fn scan_cons(
    t: (TokKind, Seq<char>, int),
    r: Result<Seq<(TokKind, Seq<char>, int)>, int>,
) -> Result<Seq<(TokKind, Seq<char>, int)>, int> {
    match r {
        Ok(rest) => Ok(seq![t] + rest),
        Err(at) => Err(at),
    }
}

/// The scan of `s` from offset `i` on: the remaining tokens, or the offset
/// of the first character at which scanning fails.  This is the definition
/// of the lexical grammar; `tokenize` produces exactly this outcome.
pub open spec fn scan_from(s: Seq<char>, i: int) -> Result<Seq<(TokKind, Seq<char>, int)>, int>
    decreases s.len() - i, 0int,
{
    if i < 0 || i >= s.len() {
        Ok(Seq::empty())
    } else if is_space_char(s[i]) {
        scan_from(s, i + 1)
    } else if s[i] == '/' {
        if i + 1 < s.len() && s[i + 1] == '/' {
            scan_comment(s, i + 2)
        } else {
            Err(i)
        }
    } else if is_ident_start_char(s[i]) {
        scan_word(s, i + 1, i)
    } else if is_digit_char(s[i]) {
        scan_number(s, i + 1, i)
    } else if s[i] == '"' {
        scan_string(s, i + 1, i)
    } else if s[i] == '(' {
        scan_cons((TokKind::LParen, Seq::empty(), i), scan_from(s, i + 1))
    } else if s[i] == ')' {
        scan_cons((TokKind::RParen, Seq::empty(), i), scan_from(s, i + 1))
    } else if s[i] == '{' {
        scan_cons((TokKind::LBrace, Seq::empty(), i), scan_from(s, i + 1))
    } else if s[i] == '}' {
        scan_cons((TokKind::RBrace, Seq::empty(), i), scan_from(s, i + 1))
    } else if s[i] == '[' {
        scan_cons((TokKind::LBracket, Seq::empty(), i), scan_from(s, i + 1))
    } else if s[i] == ']' {
        scan_cons((TokKind::RBracket, Seq::empty(), i), scan_from(s, i + 1))
    } else if s[i] == ',' {
        scan_cons((TokKind::Comma, Seq::empty(), i), scan_from(s, i + 1))
    } else if s[i] == '.' {
        scan_cons((TokKind::Dot, Seq::empty(), i), scan_from(s, i + 1))
    } else if s[i] == '+' {
        scan_cons((TokKind::Plus, Seq::empty(), i), scan_from(s, i + 1))
    } else if s[i] == '=' {
        if i + 1 < s.len() && s[i + 1] == '=' {
            scan_cons((TokKind::EqEq, Seq::empty(), i), scan_from(s, i + 2))
        } else {
            scan_cons((TokKind::Assign, Seq::empty(), i), scan_from(s, i + 1))
        }
    } else if s[i] == '!' {
        if i + 1 < s.len() && s[i + 1] == '=' {
            scan_cons((TokKind::Ne, Seq::empty(), i), scan_from(s, i + 2))
        } else {
            Err(i)
        }
    } else if s[i] == '>' {
        if i + 1 < s.len() && s[i + 1] == '=' {
            scan_cons((TokKind::Ge, Seq::empty(), i), scan_from(s, i + 2))
        } else {
            scan_cons((TokKind::Gt, Seq::empty(), i), scan_from(s, i + 1))
        }
    } else if s[i] == '<' {
        if i + 1 < s.len() && s[i + 1] == '=' {
            scan_cons((TokKind::Le, Seq::empty(), i), scan_from(s, i + 2))
        } else {
            scan_cons((TokKind::Lt, Seq::empty(), i), scan_from(s, i + 1))
        }
    } else if s[i] == '|' {
        if i + 1 < s.len() && s[i + 1] == '>' {
            scan_cons((TokKind::Pipe, Seq::empty(), i), scan_from(s, i + 2))
        } else {
            Err(i)
        }
    } else {
        Err(i)
    }
}

/// The scan from inside a line comment: everything up to and including the
/// next newline is discarded.
pub open spec fn scan_comment(s: Seq<char>, j: int) -> Result<Seq<(TokKind, Seq<char>, int)>, int>
    decreases s.len() - j, 1int,
{
    if j < 0 || j >= s.len() {
        Ok(Seq::empty())
    } else if s[j] == '\n' {
        scan_from(s, j + 1)
    } else {
        scan_comment(s, j + 1)
    }
}

/// The scan from inside a word that started at `start`, with `j` past the
/// characters read so far.
pub open spec fn scan_word(s: Seq<char>, j: int, start: int) -> Result<
    Seq<(TokKind, Seq<char>, int)>,
    int,
>
    decreases s.len() - j, 1int,
{
    if j < 0 || j >= s.len() || !is_ident_char(s[j]) {
        scan_cons(
            (word_kind(s.subrange(start, j)), s.subrange(start, j), start),
            scan_from(s, j),
        )
    } else {
        scan_word(s, j + 1, start)
    }
}

/// The scan from inside a number that started at `start`.
pub open spec fn scan_number(s: Seq<char>, j: int, start: int) -> Result<
    Seq<(TokKind, Seq<char>, int)>,
    int,
>
    decreases s.len() - j, 1int,
{
    if j < 0 || j >= s.len() || !is_digit_char(s[j]) {
        scan_cons(((TokKind::Number, s.subrange(start, j), start)), scan_from(s, j))
    } else {
        scan_number(s, j + 1, start)
    }
}

/// The scan from inside a string literal whose opening quote stands at
/// `start`: an unterminated literal fails at the end of input, a stray
/// backslash at its own offset.
pub open spec fn scan_string(s: Seq<char>, j: int, start: int) -> Result<
    Seq<(TokKind, Seq<char>, int)>,
    int,
>
    decreases s.len() - j, 1int,
{
    if j < 0 || j >= s.len() {
        Err(s.len() as int)
    } else if s[j] == '"' {
        scan_cons(((TokKind::Str, s.subrange(start, j + 1), start)), scan_from(s, j + 1))
    } else if s[j] == '\\' {
        if j + 1 < s.len() && (s[j + 1] == '"' || s[j + 1] == '\\') {
            scan_string(s, j + 2, start)
        } else {
            Err(j)
        }
    } else {
        scan_string(s, j + 1, start)
    }
}

/// The scan of a whole source text.
pub open spec fn scan(s: Seq<char>) -> Result<Seq<(TokKind, Seq<char>, int)>, int> {
    scan_from(s, 0)
}

/// Prepends the tokens already produced to a scan outcome of the rest.
pub open spec fn scan_prep(
    done: Seq<(TokKind, Seq<char>, int)>,
    r: Result<Seq<(TokKind, Seq<char>, int)>, int>,
) -> Result<Seq<(TokKind, Seq<char>, int)>, int> {
    match r {
        Ok(rest) => Ok(done + rest),
        Err(at) => Err(at),
    }
}

proof fn lemma_prep_nil(r: Result<Seq<(TokKind, Seq<char>, int)>, int>)
    ensures
        scan_prep(Seq::empty(), r) == r,
{
    match r {
        Ok(rest) => {
            assert(Seq::empty() + rest =~= rest);
        },
        Err(_) => {},
    }
}

proof fn lemma_prep_push(
    done: Seq<(TokKind, Seq<char>, int)>,
    t: (TokKind, Seq<char>, int),
    r: Result<Seq<(TokKind, Seq<char>, int)>, int>,
)
    ensures
        scan_prep(done.push(t), r) == scan_prep(done, scan_cons(t, r)),
{
    match r {
        Ok(rest) => {
            assert(done.push(t) + rest =~= done + (seq![t] + rest));
        },
        Err(_) => {},
    }
}

proof fn lemma_toks_view_push(ts: Seq<Token>, t: Token)
    ensures
        toks_view(ts.push(t)) == toks_view(ts).push(tok_view(t)),
{
    assert(toks_view(ts.push(t)) =~= toks_view(ts).push(tok_view(t)));
}

/// The token kind of a scanned word: one of the six keywords, or an
/// identifier.
pub open spec fn word_kind(s: Seq<char>) -> TokKind {
    if s.len() == 3 && s[0] == 'l' && s[1] == 'e' && s[2] == 't' {
        TokKind::KwLet
    } else if s.len() == 2 && s[0] == 'i' && s[1] == 'f' {
        TokKind::KwIf
    } else if s.len() == 4 && s[0] == 'e' && s[1] == 'l' && s[2] == 's' && s[3] == 'e' {
        TokKind::KwElse
    } else if s.len() == 4 && s[0] == 'l' && s[1] == 'o' && s[2] == 'o' && s[3] == 'p' {
        TokKind::KwLoop
    } else if s.len() == 5 && s[0] == 'b' && s[1] == 'r' && s[2] == 'e' && s[3] == 'a' && s[4]
        == 'k' {
        TokKind::KwBreak
    } else if s.len() == 2 && s[0] == 'f' && s[1] == 'n' {
        TokKind::KwFn
    } else {
        TokKind::Ident
    }
}

/// Classifies the word at `src[start..end]` as a keyword or an identifier.
fn classify_word(src: &Vec<char>, start: usize, end: usize) -> (r: TokKind)
    requires
        start <= end <= src@.len(),
    ensures
        r == word_kind(src@.subrange(start as int, end as int)),
{
    let ghost w = src@.subrange(start as int, end as int);
    proof {
        assert forall|k: int| 0 <= k < w.len() implies #[trigger] w[k] == src@[start + k] by {}
    }
    let len = end - start;
    if len == 3 && src[start] == 'l' && src[start + 1] == 'e' && src[start + 2] == 't' {
        TokKind::KwLet
    } else if len == 2 && src[start] == 'i' && src[start + 1] == 'f' {
        TokKind::KwIf
    } else if len == 4 && src[start] == 'e' && src[start + 1] == 'l' && src[start + 2] == 's'
        && src[start + 3] == 'e' {
        TokKind::KwElse
    } else if len == 4 && src[start] == 'l' && src[start + 1] == 'o' && src[start + 2] == 'o'
        && src[start + 3] == 'p' {
        TokKind::KwLoop
    } else if len == 5 && src[start] == 'b' && src[start + 1] == 'r' && src[start + 2] == 'e'
        && src[start + 3] == 'a' && src[start + 4] == 'k' {
        TokKind::KwBreak
    } else if len == 2 && src[start] == 'f' && src[start + 1] == 'n' {
        TokKind::KwFn
    } else {
        TokKind::Ident
    }
}

/// Appending a plain character or a whole escape to well-formed content
/// keeps it well-formed.
proof fn lemma_wf_escaped_append(a: Seq<char>, b: Seq<char>)
    requires
        wf_escaped(a),
        wf_escaped(b),
    ensures
        wf_escaped(a + b),
    decreases a.len(),
{
    if a.len() == 0 {
        assert(a + b =~= b);
    } else if a[0] == '\\' {
        lemma_wf_escaped_append(a.skip(2), b);
        assert((a + b).skip(2) =~= a.skip(2) + b);
    } else {
        lemma_wf_escaped_append(a.skip(1), b);
        assert((a + b).skip(1) =~= a.skip(1) + b);
    }
}

/// Scans `src` into its token sequence.  On success, an empty token
/// sequence is produced exactly for inputs of whitespace and comments
/// alone; such inputs always scan successfully.
pub fn tokenize(src_str: &str, src: &Vec<char>) -> (r: Result<Vec<Token>, LexErr>)
    requires
        src@ == src_str@,
    ensures
        match r {
            Ok(toks) => wf_tokens(toks@, src@.len() as int) && (toks@.len() == 0
                <==> ws_comments_only(src@)) && scan(src@) == Ok::<
                Seq<(TokKind, Seq<char>, int)>,
                int,
            >(toks_view(toks@)),
            Err(e) => match e {
                LexErr::BadChar { pos } => pos < src@.len() && !ws_comments_only(src@) && scan(src@)
                    == Err::<Seq<(TokKind, Seq<char>, int)>, int>(pos as int),
                LexErr::Unterminated { pos } => pos == src@.len() && !ws_comments_only(src@)
                    && scan(src@) == Err::<Seq<(TokKind, Seq<char>, int)>, int>(pos as int),
            },
        },
{
    let n = src.len();
    let mut toks: Vec<Token> = Vec::new();
    let mut i: usize = 0;
    proof {
        assert(src@.skip(0) =~= src@);
        lemma_prep_nil(scan_from(src@, 0));
        assert(toks_view(toks@) =~= Seq::<(TokKind, Seq<char>, int)>::empty());
    }
    while i < n
        invariant
            0 <= i <= n,
            n == src@.len(),
            src@ == src_str@,
            wf_tokens(toks@, n as int),
            ws_comments_only(src@) <==> (toks@.len() == 0 && ws_comments_only(src@.skip(i as int))),
            scan(src@) == scan_prep(toks_view(toks@), scan_from(src@, i as int)),
        decreases n - i,
    {
        let ghost tail = src@.skip(i as int);
        let c = src[i];
        if c == ' ' || c == '\t' || c == '\r' || c == '\n' {
            proof {
                assert(tail.skip(1) =~= src@.skip(i + 1 as int));
                assert(scan_from(src@, i as int) == scan_from(src@, i + 1));
            }
            i = i + 1;
        } else if c == '/' {
            if i + 1 < n && src[i + 1] == '/' {
                // A line comment: discard up to and including the newline.
                let mut j = i + 2;
                proof {
                    assert(tail.skip(2) =~= src@.skip(i + 2 as int));
                    assert(!is_space_char(src@[i as int]));
                    assert(scan_from(src@, i as int) == scan_comment(src@, i + 2));
                }
                while j < n && src[j] != '\n'
                    invariant
                        i + 2 <= j <= n,
                        n == src@.len(),
                        in_comment_only(src@.skip(i as int + 2)) <==> in_comment_only(
                            src@.skip(j as int),
                        ),
                        scan_comment(src@, i as int + 2) == scan_comment(src@, j as int),
                    decreases n - j,
                {
                    proof {
                        assert(src@.skip(j as int).skip(1) =~= src@.skip(j + 1 as int));
                        assert(scan_comment(src@, j as int) == scan_comment(src@, j + 1));
                    }
                    j = j + 1;
                }
                if j < n {
                    proof {
                        assert(src@.skip(j as int).skip(1) =~= src@.skip(j + 1 as int));
                        assert(in_comment_only(src@.skip(j as int)) <==> ws_comments_only(
                            src@.skip(j + 1 as int),
                        ));
                        assert(scan_comment(src@, j as int) == scan_from(src@, j + 1));
                    }
                    j = j + 1;
                } else {
                    proof {
                        assert(src@.skip(n as int) =~= Seq::<char>::empty());
                        assert(scan_comment(src@, j as int) == Ok::<
                            Seq<(TokKind, Seq<char>, int)>,
                            int,
                        >(Seq::empty()));
                        assert(scan_from(src@, j as int) == Ok::<
                            Seq<(TokKind, Seq<char>, int)>,
                            int,
                        >(Seq::empty()));
                    }
                }
                i = j;
            } else {
                proof {
                    assert(!ws_comments_only(tail));
                    assert(!is_space_char(src@[i as int]));
                    assert(scan_from(src@, i as int) == Err::<
                        Seq<(TokKind, Seq<char>, int)>,
                        int,
                    >(i as int));
                }
                return Err(LexErr::BadChar { pos: i });
            }
        } else if crate::text::ident_start_char(c) {
            let start = i;
            let mut j = i + 1;
            while j < n && crate::text::ident_char(src[j])
                invariant
                    start < j <= n,
                    n == src@.len(),
                    is_ident_start_char(src@[start as int]),
                    forall|k: int| start < k < j ==> is_ident_char(#[trigger] src@[k]),
                    scan_word(src@, start as int + 1, start as int) == scan_word(
                        src@,
                        j as int,
                        start as int,
                    ),
                decreases n - j,
            {
                proof {
                    assert(scan_word(src@, j as int, start as int) == scan_word(
                        src@,
                        j + 1,
                        start as int,
                    ));
                }
                j = j + 1;
            }
            let kind = classify_word(src, start, j);
            let sub = src_str.substring_char(start, j);
            let text = String::from_str(sub);
            let ghost ts0 = toks@;
            let ghost tv0 = toks_view(toks@);
            let ghost subv = src@.subrange(start as int, j as int);
            let ghost tokv = (word_kind(subv), subv, start as int);
            proof {
                assert(is_simple_ident(text@));
                assert(!ws_comments_only(tail));
                assert(!is_space_char(src@[i as int]));
                assert(scan_from(src@, i as int) == scan_word(src@, i as int + 1, i as int));
                assert(scan_word(src@, j as int, start as int) == scan_cons(
                    tokv,
                    scan_from(src@, j as int),
                ));
            }
            toks.push(Token { kind, text, pos: start });
            proof {
                let last = toks@[toks@.len() - 1];
                assert(toks@ == ts0.push(last));
                assert(tok_view(last) == tokv);
                lemma_toks_view_push(ts0, last);
                assert(toks_view(toks@) == tv0.push(tokv));
                lemma_prep_push(tv0, tokv, scan_from(src@, j as int));
            }
            i = j;
        } else if crate::text::digit_char(c) {
            let start = i;
            let mut j = i + 1;
            while j < n && crate::text::digit_char(src[j])
                invariant
                    start < j <= n,
                    n == src@.len(),
                    forall|k: int| start <= k < j ==> is_digit_char(#[trigger] src@[k]),
                    scan_number(src@, start as int + 1, start as int) == scan_number(
                        src@,
                        j as int,
                        start as int,
                    ),
                decreases n - j,
            {
                proof {
                    assert(scan_number(src@, j as int, start as int) == scan_number(
                        src@,
                        j + 1,
                        start as int,
                    ));
                }
                j = j + 1;
            }
            let sub = src_str.substring_char(start, j);
            let text = String::from_str(sub);
            let ghost ts0 = toks@;
            let ghost tv0 = toks_view(toks@);
            let ghost subv = src@.subrange(start as int, j as int);
            let ghost tokv = (TokKind::Number, subv, start as int);
            proof {
                assert(wf_number(text@));
                assert(!ws_comments_only(tail));
                assert(!is_space_char(src@[i as int]));
                assert(!is_ident_start_char(src@[i as int]));
                assert(scan_from(src@, i as int) == scan_number(src@, i as int + 1, i as int));
                assert(scan_number(src@, j as int, start as int) == scan_cons(
                    tokv,
                    scan_from(src@, j as int),
                ));
            }
            toks.push(Token { kind: TokKind::Number, text, pos: start });
            proof {
                let last = toks@[toks@.len() - 1];
                assert(toks@ == ts0.push(last));
                assert(tok_view(last) == tokv);
                lemma_toks_view_push(ts0, last);
                assert(toks_view(toks@) == tv0.push(tokv));
                lemma_prep_push(tv0, tokv, scan_from(src@, j as int));
            }
            i = j;
        } else if c == '"' {
            let start = i;
            let mut j = i + 1;
            let mut closed = false;
            proof {
                assert(tail.len() > 0 && tail[0] == '"');
                assert(!ws_comments_only(tail));
                assert(!ws_comments_only(src@));
                assert(!is_space_char(src@[i as int]));
                assert(!is_ident_start_char(src@[i as int]));
                assert(!is_digit_char(src@[i as int]));
                assert(scan_from(src@, i as int) == scan_string(src@, i as int + 1, i as int));
            }
            while !closed && j < n
                invariant
                    start < j <= n,
                    n == src@.len(),
                    src@[start as int] == '"',
                    !ws_comments_only(src@),
                    closed ==> j >= start + 2 && src@[j - 1] == '"' && wf_escaped(
                        src@.subrange(start + 1, j - 1),
                    ),
                    !closed ==> wf_escaped(src@.subrange(start + 1, j as int)),
                    scan(src@) == scan_prep(
                        toks_view(toks@),
                        scan_string(src@, start as int + 1, start as int),
                    ),
                    !closed ==> scan_string(src@, start as int + 1, start as int) == scan_string(
                        src@,
                        j as int,
                        start as int,
                    ),
                    closed ==> scan_string(src@, start as int + 1, start as int) == scan_cons(
                        (TokKind::Str, src@.subrange(start as int, j as int), start as int),
                        scan_from(src@, j as int),
                    ),
                decreases n - j, (if closed {
                    0int
                } else {
                    1int
                }),
            {
                let ghost content = src@.subrange(start + 1, j as int);
                let d = src[j];
                if d == '"' {
                    proof {
                        assert(scan_string(src@, j as int, start as int) == scan_cons(
                            (TokKind::Str, src@.subrange(start as int, j + 1), start as int),
                            scan_from(src@, j + 1),
                        ));
                    }
                    closed = true;
                    j = j + 1;
                } else if d == '\\' {
                    if j + 1 < n && (src[j + 1] == '"' || src[j + 1] == '\\') {
                        proof {
                            let unit = seq![src@[j as int], src@[j + 1]];
                            assert(wf_escaped(unit.skip(2))) by {
                                assert(unit.skip(2) =~= Seq::<char>::empty());
                            }
                            assert(wf_escaped(unit));
                            lemma_wf_escaped_append(content, unit);
                            assert(content + unit =~= src@.subrange(start + 1, j + 2));
                            assert(scan_string(src@, j as int, start as int) == scan_string(
                                src@,
                                j + 2,
                                start as int,
                            ));
                        }
                        j = j + 2;
                    } else {
                        proof {
                            assert(scan_string(src@, j as int, start as int) == Err::<
                                Seq<(TokKind, Seq<char>, int)>,
                                int,
                            >(j as int));
                            assert(scan(src@) == Err::<Seq<(TokKind, Seq<char>, int)>, int>(
                                j as int,
                            ));
                        }
                        return Err(LexErr::BadChar { pos: j });
                    }
                } else {
                    proof {
                        let unit = seq![src@[j as int]];
                        assert(wf_escaped(unit.skip(1))) by {
                            assert(unit.skip(1) =~= Seq::<char>::empty());
                        }
                        assert(wf_escaped(unit));
                        lemma_wf_escaped_append(content, unit);
                        assert(content + unit =~= src@.subrange(start + 1, j + 1));
                        assert(scan_string(src@, j as int, start as int) == scan_string(
                            src@,
                            j + 1,
                            start as int,
                        ));
                    }
                    j = j + 1;
                }
            }
            if !closed {
                proof {
                    assert(scan_string(src@, j as int, start as int) == Err::<
                        Seq<(TokKind, Seq<char>, int)>,
                        int,
                    >(n as int));
                    assert(scan(src@) == Err::<Seq<(TokKind, Seq<char>, int)>, int>(n as int));
                }
                return Err(LexErr::Unterminated { pos: n });
            }
            let sub = src_str.substring_char(start, j);
            let text = String::from_str(sub);
            let ghost ts0 = toks@;
            let ghost tv0 = toks_view(toks@);
            let ghost tokv = (TokKind::Str, src@.subrange(start as int, j as int), start as int);
            proof {
                let raw = src@.subrange(start as int, j as int);
                assert(raw.len() >= 2);
                assert(raw[0] == '"');
                assert(raw[raw.len() - 1] == '"');
                assert(raw.subrange(1, raw.len() - 1) =~= src@.subrange(start + 1, j - 1));
                assert(wf_strlit(text@));
                assert(!ws_comments_only(tail));
            }
            toks.push(Token { kind: TokKind::Str, text, pos: start });
            proof {
                let last = toks@[toks@.len() - 1];
                assert(toks@ == ts0.push(last));
                assert(tok_view(last) == tokv);
                lemma_toks_view_push(ts0, last);
                assert(toks_view(toks@) == tv0.push(tokv));
                lemma_prep_push(tv0, tokv, scan_from(src@, j as int));
            }
            i = j;
        } else {
            // Punctuation and operators.
            let (kind_opt, width): (Option<TokKind>, usize) = if c == '(' {
                (Some(TokKind::LParen), 1)
            } else if c == ')' {
                (Some(TokKind::RParen), 1)
            } else if c == '{' {
                (Some(TokKind::LBrace), 1)
            } else if c == '}' {
                (Some(TokKind::RBrace), 1)
            } else if c == '[' {
                (Some(TokKind::LBracket), 1)
            } else if c == ']' {
                (Some(TokKind::RBracket), 1)
            } else if c == ',' {
                (Some(TokKind::Comma), 1)
            } else if c == '.' {
                (Some(TokKind::Dot), 1)
            } else if c == '+' {
                (Some(TokKind::Plus), 1)
            } else if c == '=' {
                if i + 1 < n && src[i + 1] == '=' {
                    (Some(TokKind::EqEq), 2)
                } else {
                    (Some(TokKind::Assign), 1)
                }
            } else if c == '!' {
                if i + 1 < n && src[i + 1] == '=' {
                    (Some(TokKind::Ne), 2)
                } else {
                    (None, 1)
                }
            } else if c == '>' {
                if i + 1 < n && src[i + 1] == '=' {
                    (Some(TokKind::Ge), 2)
                } else {
                    (Some(TokKind::Gt), 1)
                }
            } else if c == '<' {
                if i + 1 < n && src[i + 1] == '=' {
                    (Some(TokKind::Le), 2)
                } else {
                    (Some(TokKind::Lt), 1)
                }
            } else if c == '|' {
                if i + 1 < n && src[i + 1] == '>' {
                    (Some(TokKind::Pipe), 2)
                } else {
                    (None, 1)
                }
            } else {
                (None, 1)
            };
            proof {
                assert(!ws_comments_only(tail));
                assert(!is_space_char(src@[i as int]));
                assert(!is_ident_start_char(src@[i as int]));
                assert(!is_digit_char(src@[i as int]));
            }
            match kind_opt {
                Some(kind) => {
                    let ghost ts0 = toks@;
                    let ghost tv0 = toks_view(toks@);
                    let ghost tokv = (kind, Seq::<char>::empty(), i as int);
                    proof {
                        assert(scan_from(src@, i as int) == scan_cons(
                            tokv,
                            scan_from(src@, i + width),
                        ));
                    }
                    toks.push(Token { kind, text: String::new(), pos: i });
                    proof {
                        let last = toks@[toks@.len() - 1];
                        assert(toks@ == ts0.push(last));
                        assert(tok_view(last) == tokv);
                        lemma_toks_view_push(ts0, last);
                        assert(toks_view(toks@) == tv0.push(tokv));
                        lemma_prep_push(tv0, tokv, scan_from(src@, i + width));
                    }
                    i = i + width;
                },
                None => {
                    proof {
                        assert(scan_from(src@, i as int) == Err::<
                            Seq<(TokKind, Seq<char>, int)>,
                            int,
                        >(i as int));
                        assert(scan(src@) == Err::<Seq<(TokKind, Seq<char>, int)>, int>(i as int));
                    }
                    return Err(LexErr::BadChar { pos: i });
                },
            }
        }
    }
    proof {
        assert(src@.skip(n as int) =~= Seq::<char>::empty());
        assert(scan_from(src@, n as int) == Ok::<Seq<(TokKind, Seq<char>, int)>, int>(Seq::empty()));
        assert(toks_view(toks@) + Seq::<(TokKind, Seq<char>, int)>::empty() =~= toks_view(toks@));
    }
    Ok(toks)
}

} // verus!
