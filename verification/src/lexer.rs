//! The lexer: from the characters of a script to spanned tokens and lexing errors.
//!
//! Between tokens the lexer skips white space and `//` line comments. A token is, in
//! order of preference: a string literal `"..."` (a backslash takes the next character
//! with it, a newline ends the literal unclosed), the keyword `test`, an identifier, or
//! one of `( ) { } . , ;`. Where no token can start, the lexer reports an error at the
//! furthest position it reached, with what it expected there (see [`lex_expected`]), and
//! retries one character later; where no later position yields a token, lexing stops
//! without output.
use vstd::prelude::*;

use crate::chars::{
    ascii_digit, byte_offset, char_is_xid_continue, delimiter, is_ident_char, is_ident_start,
    is_white_space, lemma_byte_offset_mono, lemma_byte_offset_step, lemma_utf8_len_encode,
    push_char, utf8_len, white_space, width, xid_continue,
};
use crate::message::{list_message, list_text, strings_view};
use crate::span::Span;

verus! {

/// A token of the script language.
#[derive(Debug)]
pub enum Token {
    /// A string literal, without its quotes and with escapes kept as written.
    String(String),
    /// The keyword `test`.
    Keyword(String),
    Ident(String),
    OpenParen,
    CloseParen,
    OpenCurly,
    CloseCurly,
    Dot,
    Comma,
    Semicolon,
}

impl Clone for Token {
    fn clone(&self) -> (r: Token)
        ensures
            r@ == self@,
    {
        match self {
            Token::String(s) => Token::String(s.clone()),
            Token::Keyword(s) => Token::Keyword(s.clone()),
            Token::Ident(s) => Token::Ident(s.clone()),
            Token::OpenParen => Token::OpenParen,
            Token::CloseParen => Token::CloseParen,
            Token::OpenCurly => Token::OpenCurly,
            Token::CloseCurly => Token::CloseCurly,
            Token::Dot => Token::Dot,
            Token::Comma => Token::Comma,
            Token::Semicolon => Token::Semicolon,
        }
    }
}

/// The mathematical value of a [`Token`].
pub enum SpecToken {
    Str(Seq<char>),
    Keyword(Seq<char>),
    Ident(Seq<char>),
    OpenParen,
    CloseParen,
    OpenCurly,
    CloseCurly,
    Dot,
    Comma,
    Semicolon,
}

impl View for Token {
    type V = SpecToken;

    open spec fn view(&self) -> SpecToken {
        match self {
            Token::String(s) => SpecToken::Str(s@),
            Token::Keyword(s) => SpecToken::Keyword(s@),
            Token::Ident(s) => SpecToken::Ident(s@),
            Token::OpenParen => SpecToken::OpenParen,
            Token::CloseParen => SpecToken::CloseParen,
            Token::OpenCurly => SpecToken::OpenCurly,
            Token::CloseCurly => SpecToken::CloseCurly,
            Token::Dot => SpecToken::Dot,
            Token::Comma => SpecToken::Comma,
            Token::Semicolon => SpecToken::Semicolon,
        }
    }
}

/// What the lexer expected where it stopped.
#[derive(Clone, Copy, Debug, PartialEq, Eq, Structural)]
pub enum LexExpected {
    /// This character.
    Char(char),
    /// The keyword `test`.
    Keyword,
    /// Any character.
    Any,
    /// A character of another kind: one that goes on an identifier, or starts one.
    SomethingElse,
    EndOfInput,
}

/// A lexing error: the character found where no token could go on (`None` at the end
/// of the input), its span in bytes, and what the lexer expected there.
#[derive(Debug)]
pub struct LexError {
    pub span: Span,
    pub found: Option<char>,
    pub expected: Vec<LexExpected>,
}

/// A lexing error over mathematical values.
pub struct SpecLexError {
    pub span: Span,
    pub found: Option<char>,
    pub expected: Seq<LexExpected>,
}

impl View for LexError {
    type V = SpecLexError;

    open spec fn view(&self) -> SpecLexError {
        SpecLexError { span: self.span, found: self.found, expected: self.expected@ }
    }
}

/// Lexing errors over mathematical values, in order.
pub open spec fn lex_errors_view(v: Seq<LexError>) -> Seq<SpecLexError> {
    v.map_values(|e: LexError| e@)
}

/// What the lexer produces: the tokens (none when lexing could not reach the end of the
/// input) and the errors met on the way.
pub struct LexOutput {
    pub tokens: Option<Vec<(Token, Span)>>,
    pub errors: Vec<LexError>,
}

// ---------------------------------------------------------------- the model

/// White space and comments from `p` on: the position of the first character after them.
pub open spec fn skip_trivia(s: Seq<char>, p: int) -> int
    decreases s.len() - p, 1int,
{
    if p < 0 || p >= s.len() {
        p
    } else if is_white_space(s[p]) {
        skip_trivia(s, p + 1)
    } else if p + 1 < s.len() && s[p] == '/' && s[p + 1] == '/' {
        skip_comment(s, p + 2)
    } else {
        p
    }
}

/// Inside a line comment at `q`: the end of the trivia that the comment belongs to.
pub open spec fn skip_comment(s: Seq<char>, q: int) -> int
    decreases s.len() - q, 0int,
{
    if q < 0 || q >= s.len() {
        q
    } else if s[q] == '\n' {
        skip_trivia(s, q + 1)
    } else {
        skip_comment(s, q + 1)
    }
}

/// How a string literal whose contents start at `q` ends.
pub enum StringEnd {
    /// At the closing quote, at this index.
    Closed(int),
    /// Unclosed: the literal cannot go on at this index.
    Unclosed(int),
}

/// Where the string literal whose contents start at `q` ends.
pub open spec fn string_end(s: Seq<char>, q: int) -> StringEnd
    decreases s.len() - q,
{
    if q < 0 || q >= s.len() {
        StringEnd::Unclosed(s.len() as int)
    } else if s[q] == '"' {
        StringEnd::Closed(q)
    } else if s[q] == '\\' {
        if q + 1 >= s.len() {
            StringEnd::Unclosed(s.len() as int)
        } else {
            string_end(s, q + 2)
        }
    } else if s[q] == '\n' {
        StringEnd::Unclosed(q)
    } else {
        string_end(s, q + 1)
    }
}

/// The end of the identifier characters from `q` on.
pub open spec fn ident_end(s: Seq<char>, q: int) -> int
    decreases s.len() - q,
{
    if 0 <= q < s.len() && is_ident_char(s[q]) {
        ident_end(s, q + 1)
    } else {
        q
    }
}

/// `test` stands at `p`, not followed by an identifier-continuing character.
pub open spec fn keyword_at(s: Seq<char>, p: int) -> bool {
    &&& 0 <= p
    &&& p + 4 <= s.len()
    &&& s[p] == 't' && s[p + 1] == 'e' && s[p + 2] == 's' && s[p + 3] == 't'
    &&& (p + 4 == s.len() || !xid_continue(s[p + 4]))
}

/// The token of one character `c`, if there is one.
pub open spec fn punctuation(c: char) -> Option<SpecToken> {
    if c == '(' {
        Some(SpecToken::OpenParen)
    } else if c == ')' {
        Some(SpecToken::CloseParen)
    } else if c == '{' {
        Some(SpecToken::OpenCurly)
    } else if c == '}' {
        Some(SpecToken::CloseCurly)
    } else if c == '.' {
        Some(SpecToken::Dot)
    } else if c == ',' {
        Some(SpecToken::Comma)
    } else if c == ';' {
        Some(SpecToken::Semicolon)
    } else {
        None
    }
}

/// The outcome of reading one token at a position.
pub enum Scan {
    /// A token, and the index just after it.
    Found(SpecToken, int),
    /// No token: the furthest index at which reading failed.
    Failed(int),
}

/// Reading a token at `p` (where no trivia stands).
pub open spec fn scan_token(s: Seq<char>, p: int) -> Scan {
    if p < 0 || p >= s.len() {
        Scan::Failed(s.len() as int)
    } else if s[p] == '"' {
        match string_end(s, p + 1) {
            StringEnd::Closed(q) => Scan::Found(SpecToken::Str(s.subrange(p + 1, q)), q + 1),
            StringEnd::Unclosed(f) => Scan::Failed(f),
        }
    } else if keyword_at(s, p) {
        Scan::Found(SpecToken::Keyword(s.subrange(p, p + 4)), p + 4)
    } else if is_ident_start(s[p]) {
        Scan::Found(SpecToken::Ident(s.subrange(p, ident_end(s, p + 1))), ident_end(s, p + 1))
    } else {
        match punctuation(s[p]) {
            Some(t) => Scan::Found(t, p + 1),
            None => Scan::Failed(p),
        }
    }
}

/// One lexer step from `p0`: trivia, a token, trivia.
pub enum Item {
    /// The token, its first index, the index after it, and where the next step starts.
    Token(SpecToken, int, int, int),
    /// The furthest index at which the step failed.
    Failed(int),
}

/// One step of the lexer from `p0`: trivia, then one token.
pub open spec fn item(s: Seq<char>, p0: int) -> Item {
    let p = skip_trivia(s, p0);
    match scan_token(s, p) {
        Scan::Found(t, e) => Item::Token(t, p, e, skip_trivia(s, e)),
        Scan::Failed(f) => Item::Failed(f),
    }
}

/// The first index in `r..s.len()` at which a step yields a token.
pub open spec fn first_token_from(s: Seq<char>, r: int) -> Option<int>
    decreases s.len() - r,
{
    if r < 0 || r >= s.len() {
        None
    } else if item(s, r) is Token {
        Some(r)
    } else {
        first_token_from(s, r + 1)
    }
}

/// What the token just before a step still expected where the step starts: nothing
/// (it did not end there), more of itself (an identifier or the keyword ended there), or
/// also the second `/` of a comment (an identifier that is a single `/` ended there).
#[derive(Clone, Copy, Debug, PartialEq, Eq, Structural)]
pub enum Tail {
    Plain,
    Word,
    Slash,
}

/// The tail of the token `t` that ends at `b`, for a step that starts at `n`.
pub open spec fn tail_of(t: SpecToken, b: int, n: int) -> Tail {
    if b != n {
        Tail::Plain
    } else {
        match t {
            SpecToken::Ident(text) => if text == seq!['/'] {
                Tail::Slash
            } else {
                Tail::Word
            },
            SpecToken::Keyword(_) => Tail::Word,
            _ => Tail::Plain,
        }
    }
}

/// Lexing from `p0` in indices, after a token with tail `tail`: the tokens with their
/// first index and the index after them, the errors (the index where the step failed,
/// the index where it started, whether lexing stops there, and the tail of the token
/// before it), and whether lexing reached the end of the input.
pub open spec fn lex_from(s: Seq<char>, p0: int, tail: Tail) -> (
    Seq<(SpecToken, int, int)>,
    Seq<(int, int, bool, Tail)>,
    bool,
)
    decreases s.len() - p0,
{
    if p0 < 0 || p0 >= s.len() {
        (Seq::empty(), Seq::empty(), true)
    } else {
        match item(s, p0) {
            Item::Token(t, a, b, n) => {
                proof {
                    lemma_item_progress(s, p0);
                }
                let rest = lex_from(s, n, tail_of(t, b, n));
                (seq![(t, a, b)] + rest.0, rest.1, rest.2)
            },
            Item::Failed(f) => match first_token_from(s, p0 + 1) {
                Some(r) => {
                    proof {
                        lemma_first_token_from(s, p0 + 1);
                        lemma_item_progress(s, r);
                    }
                    match item(s, r) {
                        Item::Token(t, a, b, n) => {
                            let rest = lex_from(s, n, tail_of(t, b, n));
                            (seq![(t, a, b)] + rest.0, seq![(f, p0, false, tail)] + rest.1, rest.2)
                        },
                        Item::Failed(_) => (Seq::empty(), seq![(f, p0, true, tail)], false),
                    }
                },
                None => (Seq::empty(), seq![(f, p0, true, tail)], false),
            },
        }
    }
}

/// The byte span of the indices `a..b` of `s`.
pub open spec fn span_of(s: Seq<char>, a: int, b: int) -> Span {
    Span { start: byte_offset(s, a) as usize, end: byte_offset(s, b) as usize }
}

/// The punctuation marks, as expected where a token may start.
pub open spec fn punctuation_expected() -> Seq<LexExpected> {
    seq![
        LexExpected::Char('('),
        LexExpected::Char(')'),
        LexExpected::Char('{'),
        LexExpected::Char('}'),
        LexExpected::Char('.'),
        LexExpected::Char(','),
        LexExpected::Char(';'),
    ]
}

/// A string literal whose contents start at `q` stops at a backslash that ends the input.
pub open spec fn string_ends_in_escape(s: Seq<char>, q: int) -> bool
    decreases s.len() - q,
{
    if q < 0 || q >= s.len() {
        false
    } else if s[q] == '"' {
        false
    } else if s[q] == '\\' {
        if q + 1 >= s.len() {
            true
        } else {
            string_ends_in_escape(s, q + 2)
        }
    } else if s[q] == '\n' {
        false
    } else {
        string_ends_in_escape(s, q + 1)
    }
}

/// The white space and comments from `p` on end with a comment that runs to the end of
/// the input.
pub open spec fn trivia_ends_in_comment(s: Seq<char>, p: int) -> bool
    decreases s.len() - p, 1int,
{
    if p < 0 || p >= s.len() {
        false
    } else if is_white_space(s[p]) {
        trivia_ends_in_comment(s, p + 1)
    } else if p + 1 < s.len() && s[p] == '/' && s[p + 1] == '/' {
        comment_runs_to_end(s, p + 2)
    } else {
        false
    }
}

/// The line comment whose text starts at `q` runs to the end of the input.
pub open spec fn comment_runs_to_end(s: Seq<char>, q: int) -> bool
    decreases s.len() - q, 0int,
{
    if q < 0 {
        false
    } else if q >= s.len() {
        true
    } else if s[q] == '\n' {
        trivia_ends_in_comment(s, q + 1)
    } else {
        comment_runs_to_end(s, q + 1)
    }
}

/// What the lexer expected where the step from `p0` failed, at `f`, in the order it
/// tried. Inside a string literal: more of the string, an escape or the closing quote
/// (after a backslash at the end of the input: any character). Where a token may start:
/// a comment's `/`, a string's quote, the keyword, an identifier's character (any
/// character at the end of the input) and the punctuation marks; what the previous
/// token or comment still expected there comes first. The end of the input is also
/// expected when lexing stops at a step that failed where it started.
pub open spec fn lex_expected(s: Seq<char>, p0: int, f: int, stops: bool, tail: Tail) -> Seq<
    LexExpected,
> {
    let p = skip_trivia(s, p0);
    let quote = LexExpected::Char('"');
    let slash = LexExpected::Char('/');
    let base = if 0 <= p < s.len() && s[p] == '"' {
        if string_ends_in_escape(s, p + 1) {
            seq![LexExpected::Any]
        } else {
            seq![LexExpected::SomethingElse, LexExpected::Char('\\'), quote]
        }
    } else if p >= s.len() {
        if trivia_ends_in_comment(s, p0) {
            seq![LexExpected::Any, slash, quote, LexExpected::Keyword] + punctuation_expected()
        } else {
            seq![slash, quote, LexExpected::Keyword, LexExpected::Any] + punctuation_expected()
        }
    } else if tail == Tail::Slash {
        seq![slash, LexExpected::SomethingElse, quote, LexExpected::Keyword]
            + punctuation_expected()
    } else if tail == Tail::Word {
        seq![LexExpected::SomethingElse, slash, quote, LexExpected::Keyword]
            + punctuation_expected()
    } else {
        seq![slash, quote, LexExpected::Keyword, LexExpected::SomethingElse]
            + punctuation_expected()
    };
    if stops && f == p0 {
        base.push(LexExpected::EndOfInput)
    } else {
        base
    }
}

/// The error reported for the step from `e.1` that failed at `e.0`, lexing stopping
/// there when `e.2`, after a token with tail `e.3`.
pub open spec fn error_at(s: Seq<char>, e: (int, int, bool, Tail)) -> SpecLexError {
    let expected = lex_expected(s, e.1, e.0, e.2, e.3);
    if 0 <= e.0 < s.len() {
        SpecLexError { span: span_of(s, e.0, e.0 + 1), found: Some(s[e.0]), expected }
    } else {
        SpecLexError { span: span_of(s, s.len() as int, s.len() as int), found: None, expected }
    }
}

/// The tokens of `s` with byte spans, when lexing reaches the end, and the errors.
pub open spec fn lex(s: Seq<char>) -> (Option<Seq<(SpecToken, Span)>>, Seq<SpecLexError>) {
    let r = lex_from(s, 0, Tail::Plain);
    (
        if r.2 {
            Some(r.0.map_values(|t: (SpecToken, int, int)| (t.0, span_of(s, t.1, t.2))))
        } else {
            None
        },
        r.1.map_values(|e: (int, int, bool, Tail)| error_at(s, e)),
    )
}

impl LexOutput {
    /// The tokens, if any, over mathematical values.
    pub open spec fn spec_tokens(&self) -> Option<Seq<(SpecToken, Span)>> {
        match self.tokens {
            Some(v) => Some(v@.map_values(|t: (Token, Span)| (t.0@, t.1))),
            None => None,
        }
    }
}

// ---------------------------------------------------------------- lemmas

/// Skipping trivia never goes back, nor past the end.
pub proof fn lemma_skip_trivia_ge(s: Seq<char>, p: int)
    ensures
        skip_trivia(s, p) >= p,
        0 <= p <= s.len() ==> skip_trivia(s, p) <= s.len(),
    decreases s.len() - p, 1int,
{
    if 0 <= p < s.len() {
        if is_white_space(s[p]) {
            lemma_skip_trivia_ge(s, p + 1);
        } else if p + 1 < s.len() && s[p] == '/' && s[p + 1] == '/' {
            lemma_skip_comment_ge(s, p + 2);
        }
    }
}

/// Skipping a comment never goes back, nor past the end.
pub proof fn lemma_skip_comment_ge(s: Seq<char>, q: int)
    ensures
        skip_comment(s, q) >= q,
        0 <= q <= s.len() ==> skip_comment(s, q) <= s.len(),
    decreases s.len() - q, 0int,
{
    if 0 <= q < s.len() {
        if s[q] == '\n' {
            lemma_skip_trivia_ge(s, q + 1);
        } else {
            lemma_skip_comment_ge(s, q + 1);
        }
    }
}

proof fn lemma_string_end(s: Seq<char>, q: int)
    requires
        0 <= q <= s.len(),
    ensures
        match string_end(s, q) {
            StringEnd::Closed(c) => q <= c < s.len() && s[c] == '"',
            StringEnd::Unclosed(f) => q <= f <= s.len(),
        },
    decreases s.len() - q,
{
    if q < s.len() && s[q] != '"' && s[q] != '\n' {
        if s[q] == '\\' {
            if q + 1 < s.len() {
                lemma_string_end(s, q + 2);
            }
        } else {
            lemma_string_end(s, q + 1);
        }
    }
}

proof fn lemma_ident_end(s: Seq<char>, q: int)
    requires
        0 <= q <= s.len(),
    ensures
        q <= ident_end(s, q) <= s.len(),
    decreases s.len() - q,
{
    if q < s.len() && is_ident_char(s[q]) {
        lemma_ident_end(s, q + 1);
    }
}

/// What a token scan at `p` yields lies within `p..s.len()`.
pub proof fn lemma_scan_token(s: Seq<char>, p: int)
    requires
        0 <= p <= s.len(),
    ensures
        match scan_token(s, p) {
            Scan::Found(_, e) => p < e <= s.len(),
            Scan::Failed(f) => p <= f <= s.len(),
        },
{
    if p < s.len() {
        if s[p] == '"' {
            lemma_string_end(s, p + 1);
        } else if !keyword_at(s, p) && is_ident_start(s[p]) {
            lemma_ident_end(s, p + 1);
        }
    }
}

/// A step that yields a token moves forward, and stays within the input.
pub proof fn lemma_item_progress(s: Seq<char>, p0: int)
    requires
        0 <= p0 <= s.len(),
    ensures
        match item(s, p0) {
            Item::Token(_, a, b, n) => p0 <= a < b <= n <= s.len(),
            Item::Failed(f) => p0 <= f <= s.len(),
        },
{
    lemma_skip_trivia_ge(s, p0);
    let p = skip_trivia(s, p0);
    lemma_scan_token(s, p);
    if let Scan::Found(_, e) = scan_token(s, p) {
        lemma_skip_trivia_ge(s, e);
    }
}

/// The first index from `r` at which a token starts.
pub proof fn lemma_first_token_from(s: Seq<char>, r: int)
    ensures
        first_token_from(s, r) matches Some(x) ==> r <= x < s.len() && 0 <= x && item(s, x) is Token,
    decreases s.len() - r,
{
    if 0 <= r < s.len() && !(item(s, r) is Token) {
        lemma_first_token_from(s, r + 1);
    }
}

/// The tokens found from `p0` lie in order within `p0..s.len()`, each over at least one
/// character.
pub proof fn lemma_lex_from_in_order(s: Seq<char>, p0: int, tail: Tail)
    requires
        0 <= p0 <= s.len(),
    ensures
        forall|i: int|
            0 <= i < lex_from(s, p0, tail).0.len() ==> p0 <= (#[trigger] lex_from(s, p0, tail).0[i]).1
                < lex_from(s, p0, tail).0[i].2 <= s.len(),
        forall|i: int, j: int|
            0 <= i < j < lex_from(s, p0, tail).0.len() ==> (#[trigger] lex_from(s, p0, tail).0[i]).2
                <= (#[trigger] lex_from(s, p0, tail).0[j]).1,
    decreases s.len() - p0,
{
    if p0 < s.len() {
        lemma_item_progress(s, p0);
        match item(s, p0) {
            Item::Token(t, a, b, n) => {
                lemma_lex_from_in_order(s, n, tail_of(t, b, n));
                let rest = lex_from(s, n, tail_of(t, b, n)).0;
                let all = seq![(t, a, b)] + rest;
                assert forall|i: int| 0 <= i < all.len() implies p0 <= (#[trigger] all[i]).1
                    < all[i].2 <= s.len() by {
                    if i > 0 {
                        assert(all[i] == rest[i - 1]);
                    }
                }
                assert forall|i: int, j: int| 0 <= i < j < all.len() implies (#[trigger] all[i]).2
                    <= (#[trigger] all[j]).1 by {
                    assert(all[j] == rest[j - 1]);
                    if i > 0 {
                        assert(all[i] == rest[i - 1]);
                    }
                }
            },
            Item::Failed(f) => {
                lemma_first_token_from(s, p0 + 1);
                if let Some(r) = first_token_from(s, p0 + 1) {
                    lemma_item_progress(s, r);
                    if let Item::Token(t, a, b, n) = item(s, r) {
                        lemma_lex_from_in_order(s, n, tail_of(t, b, n));
                        let rest = lex_from(s, n, tail_of(t, b, n)).0;
                        let all = seq![(t, a, b)] + rest;
                        assert forall|i: int| 0 <= i < all.len() implies p0 <= (#[trigger] all[i]).1
                            < all[i].2 <= s.len() by {
                            if i > 0 {
                                assert(all[i] == rest[i - 1]);
                            }
                        }
                        assert forall|i: int, j: int| 0 <= i < j < all.len() implies (
                        #[trigger] all[i]).2 <= (#[trigger] all[j]).1 by {
                            assert(all[j] == rest[j - 1]);
                            if i > 0 {
                                assert(all[i] == rest[i - 1]);
                            }
                        }
                    }
                }
            },
        }
    }
}

/// The byte offset grows strictly with the index.
proof fn lemma_byte_offset_strict(s: Seq<char>, i: int, j: int)
    requires
        0 <= i < j <= s.len(),
    ensures
        byte_offset(s, i) < byte_offset(s, j),
{
    lemma_byte_offset_step(s, i);
    lemma_byte_offset_mono(s, i + 1, j);
}

/// The spans of tokens come in the order of the text, do not overlap, are not empty and
/// end within the text (whose UTF-8 length fits a `usize`, as that of a `str` does).
pub proof fn lemma_lex_spans_in_order(s: Seq<char>)
    requires
        utf8_len(s) <= usize::MAX,
    ensures
        lex(s).0 matches Some(ts) ==> {
            &&& forall|i: int|
                0 <= i < ts.len() ==> (#[trigger] ts[i]).1.start < ts[i].1.end <= utf8_len(s)
            &&& forall|i: int, j: int|
                0 <= i < j < ts.len() ==> (#[trigger] ts[i]).1.end <= (#[trigger] ts[j]).1.start
        },
{
    lemma_lex_from_in_order(s, 0, Tail::Plain);
    let toks = lex_from(s, 0, Tail::Plain).0;
    assert(s.take(s.len() as int) =~= s);
    assert(byte_offset(s, s.len() as int) == utf8_len(s));
    if lex(s).0 is Some {
        let ts = lex(s).0->Some_0;
        assert(ts.len() == toks.len());
        assert forall|i: int| 0 <= i < ts.len() implies (#[trigger] ts[i]).1.start < ts[i].1.end
            <= utf8_len(s) by {
            let (t, a, b) = toks[i];
            lemma_byte_offset_strict(s, a, b);
            lemma_byte_offset_mono(s, b, s.len() as int);
            assert(ts[i] == (t, span_of(s, a, b)));
        }
        assert forall|i: int, j: int| 0 <= i < j < ts.len() implies (#[trigger] ts[i]).1.end
            <= (#[trigger] ts[j]).1.start by {
            let (t, a, b) = toks[i];
            let (u, c, d) = toks[j];
            lemma_byte_offset_mono(s, b, c);
            lemma_byte_offset_mono(s, c, s.len() as int);
            lemma_byte_offset_mono(s, b, s.len() as int);
            assert(ts[i] == (t, span_of(s, a, b)));
            assert(ts[j] == (u, span_of(s, c, d)));
        }
    }
}

// ---------------------------------------------------------------- words hold no white space

/// The Unicode `White_Space` characters, the ones that Rust's `char::is_whitespace`
/// accepts: tab, line feed, vertical tab, form feed, carriage return, space, next line,
/// no-break space and the other Unicode spaces and separators.
pub open spec fn unicode_white_space(c: char) -> bool {
    let v = c as u32;
    ||| v == 0x09 || v == 0x0A || v == 0x0B || v == 0x0C || v == 0x0D || v == 0x20
    ||| v == 0x85 || v == 0xA0 || v == 0x1680
    ||| v == 0x2000 || v == 0x2001 || v == 0x2002 || v == 0x2003 || v == 0x2004 || v == 0x2005
    ||| v == 0x2006 || v == 0x2007 || v == 0x2008 || v == 0x2009 || v == 0x200A
    ||| v == 0x2028 || v == 0x2029 || v == 0x202F || v == 0x205F || v == 0x3000
}

/// The text of an identifier or of the keyword; nothing for other tokens.
pub open spec fn word_text(t: SpecToken) -> Seq<char> {
    match t {
        SpecToken::Ident(x) => x,
        SpecToken::Keyword(x) => x,
        _ => Seq::empty(),
    }
}

/// The identifier or keyword `t` holds no white space character.
pub open spec fn word_without_space(t: SpecToken) -> bool {
    forall|k: int| 0 <= k < word_text(t).len() ==> !unicode_white_space(#[trigger] word_text(t)[k])
}

/// The characters that an identifier takes from `q` on are identifier characters.
proof fn lemma_ident_end_chars(s: Seq<char>, q: int)
    requires
        0 <= q <= s.len(),
    ensures
        forall|k: int| q <= k < ident_end(s, q) ==> is_ident_char(#[trigger] s[k]),
    decreases s.len() - q,
{
    lemma_ident_end(s, q);
    if q < s.len() && is_ident_char(s[q]) {
        lemma_ident_end_chars(s, q + 1);
    }
}

/// A token read at `p` that is a word holds no white space.
proof fn lemma_scan_word(s: Seq<char>, p: int)
    requires
        0 <= p <= s.len(),
    ensures
        scan_token(s, p) matches Scan::Found(t, _) ==> word_without_space(t),
{
    if p < s.len() && s[p] != '"' {
        if keyword_at(s, p) {
            let w = s.subrange(p, p + 4);
            assert(w =~= seq!['t', 'e', 's', 't']);
        } else if is_ident_start(s[p]) {
            lemma_ident_end(s, p + 1);
            lemma_ident_end_chars(s, p + 1);
            let e = ident_end(s, p + 1);
            let w = s.subrange(p, e);
            assert forall|k: int| 0 <= k < w.len() implies !unicode_white_space(#[trigger] w[k]) by {
                assert(w[k] == s[p + k]);
                if k > 0 {
                    assert(is_ident_char(s[p + k]));
                }
            }
        }
    }
}

/// A lexer step that yields a word yields one without white space.
proof fn lemma_item_word(s: Seq<char>, p0: int)
    requires
        0 <= p0 <= s.len(),
    ensures
        item(s, p0) matches Item::Token(t, _, _, _) ==> word_without_space(t),
{
    lemma_skip_trivia_ge(s, p0);
    lemma_scan_word(s, skip_trivia(s, p0));
}

/// No word that lexing from `p0` yields holds white space.
proof fn lemma_lex_from_words(s: Seq<char>, p0: int, tail: Tail)
    requires
        0 <= p0 <= s.len(),
    ensures
        forall|i: int|
            0 <= i < lex_from(s, p0, tail).0.len() ==> word_without_space(
                (#[trigger] lex_from(s, p0, tail).0[i]).0,
            ),
    decreases s.len() - p0,
{
    if p0 < s.len() {
        lemma_item_progress(s, p0);
        lemma_item_word(s, p0);
        match item(s, p0) {
            Item::Token(t, a, b, n) => {
                lemma_lex_from_words(s, n, tail_of(t, b, n));
                let rest = lex_from(s, n, tail_of(t, b, n)).0;
                let all = seq![(t, a, b)] + rest;
                assert forall|i: int| 0 <= i < all.len() implies word_without_space(
                    (#[trigger] all[i]).0,
                ) by {
                    if i > 0 {
                        assert(all[i] == rest[i - 1]);
                    }
                }
            },
            Item::Failed(f) => {
                lemma_first_token_from(s, p0 + 1);
                if let Some(r) = first_token_from(s, p0 + 1) {
                    lemma_item_progress(s, r);
                    lemma_item_word(s, r);
                    if let Item::Token(t, a, b, n) = item(s, r) {
                        lemma_lex_from_words(s, n, tail_of(t, b, n));
                        let rest = lex_from(s, n, tail_of(t, b, n)).0;
                        let all = seq![(t, a, b)] + rest;
                        assert forall|i: int| 0 <= i < all.len() implies word_without_space(
                            (#[trigger] all[i]).0,
                        ) by {
                            if i > 0 {
                                assert(all[i] == rest[i - 1]);
                            }
                        }
                    }
                }
            },
        }
    }
}

/// White space, in Unicode's sense (as `char::is_whitespace` decides it), separates words:
/// no identifier and no keyword that the lexer yields holds a white space character, so a
/// carriage return, like a line feed, a tab or a space, is never part of a word.
pub proof fn lemma_lex_words_hold_no_white_space(s: Seq<char>)
    ensures
        lex(s).0 matches Some(ts) ==> forall|i: int|
            0 <= i < ts.len() ==> word_without_space((#[trigger] ts[i]).0),
{
    lemma_lex_from_words(s, 0, Tail::Plain);
    let toks = lex_from(s, 0, Tail::Plain).0;
    if lex(s).0 is Some {
        let ts = lex(s).0->Some_0;
        assert forall|i: int| 0 <= i < ts.len() implies word_without_space((#[trigger] ts[i]).0) by {
            assert(ts[i].0 == toks[i].0);
        }
    }
}

// ---------------------------------------------------------------- the lexer

/// The characters of `src`, in order.
pub fn chars_of(src: &str) -> (v: Vec<char>)
    ensures
        v@ == src@,
{
    let mut v: Vec<char> = Vec::new();
    for c in it: src.chars()
        invariant
            it.seq() == src@,
            v@ == it.seq().take(it.index() as int),
    {
        v.push(c);
        assert(v@ =~= it.seq().take(it.index() as int + 1));
    }
    assert(v@ =~= src@);
    v
}

/// The byte offset of every character index of `s`, and of its end.
fn byte_offsets(s: &Vec<char>) -> (o: Vec<usize>)
    requires
        utf8_len(s@) <= usize::MAX,
    ensures
        o@.len() == s@.len() + 1,
        forall|i: int| 0 <= i <= s@.len() ==> o@[i] == byte_offset(s@, i),
{
    let mut o: Vec<usize> = Vec::new();
    o.push(0);
    assert(s@.take(0) =~= Seq::<char>::empty());
    let mut acc: usize = 0;
    let mut i: usize = 0;
    assert(s@.take(s@.len() as int) =~= s@);
    while i < s.len()
        invariant
            i <= s@.len(),
            o@.len() == i + 1,
            acc == byte_offset(s@, i as int),
            forall|j: int| 0 <= j <= i ==> o@[j] == byte_offset(s@, j),
            utf8_len(s@) <= usize::MAX,
            byte_offset(s@, s@.len() as int) == utf8_len(s@),
        decreases s@.len() - i,
    {
        proof {
            lemma_byte_offset_step(s@, i as int);
            lemma_byte_offset_mono(s@, i + 1, s@.len() as int);
        }
        acc = acc + width(s[i]);
        o.push(acc);
        i = i + 1;
    }
    o
}

/// White space and comments from `p` on.
fn skip_trivia_at(s: &Vec<char>, p: usize) -> (r: usize)
    requires
        p <= s@.len(),
    ensures
        r == skip_trivia(s@, p as int),
{
    let mut i = p;
    while i < s.len()
        invariant
            p <= i <= s@.len(),
            skip_trivia(s@, i as int) == skip_trivia(s@, p as int),
        decreases s@.len() - i,
    {
        if white_space(s[i]) {
            i = i + 1;
        } else if i + 1 < s.len() && s[i] == '/' && s[i + 1] == '/' {
            let mut j = i + 2;
            while j < s.len() && s[j] != '\n'
                invariant
                    i + 2 <= j <= s@.len(),
                    skip_comment(s@, j as int) == skip_trivia(s@, p as int),
                decreases s@.len() - j,
            {
                j = j + 1;
            }
            i = j;
        } else {
            return i;
        }
    }
    i
}

/// The characters `a..b` of `s` as a string.
fn collect_string(s: &Vec<char>, a: usize, b: usize) -> (r: String)
    requires
        a <= b <= s@.len(),
    ensures
        r@ == s@.subrange(a as int, b as int),
{
    let mut r = String::new();
    let mut i = a;
    while i < b
        invariant
            a <= i <= b <= s@.len(),
            r@ == s@.subrange(a as int, i as int),
        decreases b - i,
    {
        push_char(&mut r, s[i]);
        assert(r@ =~= s@.subrange(a as int, i + 1));
        i = i + 1;
    }
    r
}

/// How the string literal whose contents start at `q` ends: `Ok` with the index of the
/// closing quote, `Err` with the index where it cannot go on.
fn string_end_at(s: &Vec<char>, q: usize) -> (r: Result<usize, usize>)
    requires
        q <= s@.len(),
    ensures
        match r {
            Ok(c) => string_end(s@, q as int) == StringEnd::Closed(c as int),
            Err(f) => string_end(s@, q as int) == StringEnd::Unclosed(f as int),
        },
{
    let mut i = q;
    while i < s.len()
        invariant
            q <= i <= s@.len(),
            string_end(s@, i as int) == string_end(s@, q as int),
        decreases s@.len() - i,
    {
        if s[i] == '"' {
            return Ok(i);
        } else if s[i] == '\\' {
            if i + 1 >= s.len() {
                return Err(s.len());
            }
            i = i + 2;
        } else if s[i] == '\n' {
            return Err(i);
        } else {
            i = i + 1;
        }
    }
    Err(s.len())
}

fn ident_end_at(s: &Vec<char>, q: usize) -> (r: usize)
    requires
        q <= s@.len(),
    ensures
        r == ident_end(s@, q as int),
{
    let mut i = q;
    while i < s.len() && !white_space(s[i]) && !delimiter(s[i])
        invariant
            q <= i <= s@.len(),
            ident_end(s@, i as int) == ident_end(s@, q as int),
        decreases s@.len() - i,
    {
        i = i + 1;
    }
    i
}

/// A token scan at a position: the token and the index after it, or the furthest index
/// at which the scan failed.
enum Scanned {
    Found(Token, usize),
    Failed(usize),
}

fn scan_token_at(s: &Vec<char>, p: usize) -> (r: Scanned)
    requires
        p <= s@.len(),
    ensures
        match r {
            Scanned::Found(t, e) => scan_token(s@, p as int) matches Scan::Found(u, f) && t@ == u
                && e == f,
            Scanned::Failed(f) => scan_token(s@, p as int) == Scan::Failed(f as int),
        },
{
    if p >= s.len() {
        return Scanned::Failed(s.len());
    }
    let c = s[p];
    if c == '"' {
        match string_end_at(s, p + 1) {
            Ok(q) => {
                proof {
                    lemma_string_end(s@, p + 1);
                }
                let text = collect_string(s, p + 1, q);
                return Scanned::Found(Token::String(text), q + 1);
            },
            Err(f) => {
                return Scanned::Failed(f);
            },
        }
    }
    let is_keyword = s.len() >= 4 && p <= s.len() - 4 && s[p] == 't' && s[p + 1] == 'e' && s[p + 2] == 's' && s[p
        + 3] == 't' && (p + 4 == s.len() || !char_is_xid_continue(s[p + 4]));
    if is_keyword {
        let text = collect_string(s, p, p + 4);
        return Scanned::Found(Token::Keyword(text), p + 4);
    }
    if !ascii_digit(c) && !white_space(c) && !delimiter(c) {
        let e = ident_end_at(s, p + 1);
        proof {
            lemma_ident_end(s@, p + 1);
        }
        let text = collect_string(s, p, e);
        return Scanned::Found(Token::Ident(text), e);
    }
    if c == '(' {
        Scanned::Found(Token::OpenParen, p + 1)
    } else if c == ')' {
        Scanned::Found(Token::CloseParen, p + 1)
    } else if c == '{' {
        Scanned::Found(Token::OpenCurly, p + 1)
    } else if c == '}' {
        Scanned::Found(Token::CloseCurly, p + 1)
    } else if c == '.' {
        Scanned::Found(Token::Dot, p + 1)
    } else if c == ',' {
        Scanned::Found(Token::Comma, p + 1)
    } else if c == ';' {
        Scanned::Found(Token::Semicolon, p + 1)
    } else {
        Scanned::Failed(p)
    }
}

/// One lexer step at `p0`.
enum Stepped {
    Token(Token, usize, usize, usize),
    Failed(usize),
}

fn item_at(s: &Vec<char>, p0: usize) -> (r: Stepped)
    requires
        p0 <= s@.len(),
    ensures
        match r {
            Stepped::Token(t, a, b, n) => item(s@, p0 as int) matches Item::Token(u, a2, b2, n2)
                && t@ == u && a == a2 && b == b2 && n == n2,
            Stepped::Failed(f) => item(s@, p0 as int) == Item::Failed(f as int),
        },
{
    let p = skip_trivia_at(s, p0);
    proof {
        lemma_skip_trivia_ge(s@, p0 as int);
    }
    match scan_token_at(s, p) {
        Scanned::Found(t, e) => {
            proof {
                lemma_scan_token(s@, p as int);
            }
            let n = skip_trivia_at(s, e);
            Stepped::Token(t, p, e, n)
        },
        Scanned::Failed(f) => Stepped::Failed(f),
    }
}

/// Whether the string literal whose contents start at `q` stops at a backslash that ends
/// the input.
fn string_ends_in_escape_at(s: &Vec<char>, q: usize) -> (b: bool)
    requires
        q <= s@.len(),
    ensures
        b == string_ends_in_escape(s@, q as int),
{
    let mut i = q;
    while i < s.len()
        invariant
            q <= i <= s@.len(),
            string_ends_in_escape(s@, i as int) == string_ends_in_escape(s@, q as int),
        decreases s@.len() - i,
    {
        if s[i] == '"' {
            return false;
        } else if s[i] == '\\' {
            if i + 1 >= s.len() {
                return true;
            }
            i = i + 2;
        } else if s[i] == '\n' {
            return false;
        } else {
            i = i + 1;
        }
    }
    false
}

/// Whether the white space and comments from `p` on end with a comment that runs to the
/// end of the input.
fn trivia_ends_in_comment_at(s: &Vec<char>, p: usize) -> (b: bool)
    requires
        p <= s@.len(),
    ensures
        b == trivia_ends_in_comment(s@, p as int),
{
    let mut i = p;
    while i < s.len()
        invariant
            p <= i <= s@.len(),
            trivia_ends_in_comment(s@, i as int) == trivia_ends_in_comment(s@, p as int),
        decreases s@.len() - i,
    {
        if white_space(s[i]) {
            i = i + 1;
        } else if i + 1 < s.len() && s[i] == '/' && s[i + 1] == '/' {
            let mut j = i + 2;
            while j < s.len() && s[j] != '\n'
                invariant
                    i + 2 <= j <= s@.len(),
                    comment_runs_to_end(s@, j as int) == trivia_ends_in_comment(s@, p as int),
                decreases s@.len() - j,
            {
                j = j + 1;
            }
            if j >= s.len() {
                return true;
            }
            i = j + 1;
        } else {
            return false;
        }
    }
    false
}

fn push_punctuation(r: &mut Vec<LexExpected>)
    ensures
        final(r)@ == old(r)@ + punctuation_expected(),
{
    r.push(LexExpected::Char('('));
    r.push(LexExpected::Char(')'));
    r.push(LexExpected::Char('{'));
    r.push(LexExpected::Char('}'));
    r.push(LexExpected::Char('.'));
    r.push(LexExpected::Char(','));
    r.push(LexExpected::Char(';'));
    assert(r@ =~= old(r)@ + punctuation_expected());
}

/// What was expected where the step from `p0` failed at `f` (see [`lex_expected`]).
fn lex_expected_at(s: &Vec<char>, p0: usize, f: usize, stops: bool, tail: Tail) -> (r: Vec<
    LexExpected,
>)
    requires
        p0 <= s@.len(),
        f <= s@.len(),
    ensures
        r@ == lex_expected(s@, p0 as int, f as int, stops, tail),
{
    let p = skip_trivia_at(s, p0);
    proof {
        lemma_skip_trivia_ge(s@, p0 as int);
    }
    let ghost sv = s@;
    let quote = LexExpected::Char('"');
    let slash = LexExpected::Char('/');
    let mut r: Vec<LexExpected> = Vec::new();
    if p < s.len() && s[p] == '"' {
        if string_ends_in_escape_at(s, p + 1) {
            r.push(LexExpected::Any);
        } else {
            r.push(LexExpected::SomethingElse);
            r.push(LexExpected::Char('\\'));
            r.push(quote);
        }
    } else if p >= s.len() {
        if trivia_ends_in_comment_at(s, p0) {
            r.push(LexExpected::Any);
            r.push(slash);
            r.push(quote);
            r.push(LexExpected::Keyword);
        } else {
            r.push(slash);
            r.push(quote);
            r.push(LexExpected::Keyword);
            r.push(LexExpected::Any);
        }
        push_punctuation(&mut r);
    } else if tail != Tail::Plain {
        if tail == Tail::Slash {
            r.push(slash);
            r.push(LexExpected::SomethingElse);
        } else {
            r.push(LexExpected::SomethingElse);
            r.push(slash);
        }
        r.push(quote);
        r.push(LexExpected::Keyword);
        push_punctuation(&mut r);
    } else {
        r.push(slash);
        r.push(quote);
        r.push(LexExpected::Keyword);
        r.push(LexExpected::SomethingElse);
        push_punctuation(&mut r);
    }
    let ghost base = r@;
    if stops && f == p0 {
        r.push(LexExpected::EndOfInput);
    }
    proof {
        let spec_base = if 0 <= p < sv.len() && sv[p as int] == '"' {
            if string_ends_in_escape(sv, p + 1) {
                seq![LexExpected::Any]
            } else {
                seq![LexExpected::SomethingElse, LexExpected::Char('\\'), quote]
            }
        } else if p >= sv.len() {
            if trivia_ends_in_comment(sv, p0 as int) {
                seq![LexExpected::Any, slash, quote, LexExpected::Keyword] + punctuation_expected()
            } else {
                seq![slash, quote, LexExpected::Keyword, LexExpected::Any] + punctuation_expected()
            }
        } else if tail == Tail::Slash {
            seq![slash, LexExpected::SomethingElse, quote, LexExpected::Keyword]
                + punctuation_expected()
        } else if tail == Tail::Word {
            seq![LexExpected::SomethingElse, slash, quote, LexExpected::Keyword]
                + punctuation_expected()
        } else {
            seq![slash, quote, LexExpected::Keyword, LexExpected::SomethingElse]
                + punctuation_expected()
        };
        assert(base =~= spec_base);
    }
    r
}

/// The error for the step from `p0` that failed at `f`, lexing stopping there when
/// `stops`, with its byte span from `offsets`.
fn error_at_index(
    s: &Vec<char>,
    offsets: &Vec<usize>,
    f: usize,
    p0: usize,
    stops: bool,
    tail: Tail,
) -> (e: LexError)
    requires
        f <= s@.len(),
        p0 <= s@.len(),
        offsets@.len() == s@.len() + 1,
        forall|i: int| 0 <= i <= s@.len() ==> offsets@[i] == byte_offset(s@, i),
    ensures
        e@ == error_at(s@, (f as int, p0 as int, stops, tail)),
{
    let expected = lex_expected_at(s, p0, f, stops, tail);
    if f < s.len() {
        LexError { span: Span { start: offsets[f], end: offsets[f + 1] }, found: Some(s[f]), expected }
    } else {
        let n = s.len();
        LexError { span: Span { start: offsets[n], end: offsets[n] }, found: None, expected }
    }
}

/// The tail of the token `t` that ends at `b`, for a step that starts at `n`.
fn tail_at(t: &Token, b: usize, n: usize) -> (r: Tail)
    ensures
        r == tail_of(t@, b as int, n as int),
{
    if b != n {
        return Tail::Plain;
    }
    match t {
        Token::Ident(text) => {
            let slash = text.as_str().unicode_len() == 1 && text.as_str().get_char(0) == '/';
            proof {
                if slash {
                    assert(text@ =~= seq!['/']);
                }
            }
            if slash {
                Tail::Slash
            } else {
                Tail::Word
            }
        },
        Token::Keyword(_) => Tail::Word,
        _ => Tail::Plain,
    }
}

/// Lexes the characters `s`, whose byte offsets are `offsets`.
fn lex_chars(s: &Vec<char>, offsets: &Vec<usize>) -> (out: LexOutput)
    requires
        offsets@.len() == s@.len() + 1,
        forall|i: int| 0 <= i <= s@.len() ==> offsets@[i] == byte_offset(s@, i),
    ensures
        out.spec_tokens() == lex(s@).0,
        lex_errors_view(out.errors@) == lex(s@).1,
{
    let ghost total = lex_from(s@, 0, Tail::Plain);
    let ghost sv = s@;
    let mut toks: Vec<(Token, Span)> = Vec::new();
    let mut errs: Vec<LexError> = Vec::new();
    let ghost mut gt: Seq<(SpecToken, int, int)> = Seq::empty();
    let ghost mut ge: Seq<(int, int, bool, Tail)> = Seq::empty();
    let mut p0: usize = 0;
    let mut tail = Tail::Plain;
    loop
        invariant
            sv == s@,
            total == lex_from(sv, 0, Tail::Plain),
            p0 <= sv.len(),
            offsets@.len() == sv.len() + 1,
            forall|i: int| 0 <= i <= sv.len() ==> offsets@[i] == byte_offset(sv, i),
            total.0 == gt + lex_from(sv, p0 as int, tail).0,
            total.1 == ge + lex_from(sv, p0 as int, tail).1,
            total.2 == lex_from(sv, p0 as int, tail).2,
            toks@.len() == gt.len(),
            forall|k: int|
                0 <= k < gt.len() ==> (#[trigger] toks@[k]).0@ == gt[k].0 && toks@[k].1
                    == span_of(sv, gt[k].1, gt[k].2),
            lex_errors_view(errs@) == ge.map_values(|e: (int, int, bool, Tail)| error_at(sv, e)),
        decreases sv.len() - p0,
    {
        if p0 >= s.len() {
            proof {
                assert(gt + Seq::<(SpecToken, int, int)>::empty() =~= gt);
                assert(ge + Seq::<(int, int, bool, Tail)>::empty() =~= ge);
                let m = total.0.map_values(
                    |t: (SpecToken, int, int)| (t.0, span_of(sv, t.1, t.2)),
                );
                assert(toks@.map_values(|t: (Token, Span)| (t.0@, t.1)) =~= m);
            }
            return LexOutput { tokens: Some(toks), errors: errs };
        }
        proof {
            lemma_item_progress(sv, p0 as int);
        }
        match item_at(s, p0) {
            Stepped::Token(t, a, b, n) => {
                let next = tail_at(&t, b, n);
                proof {
                    assert(lex_from(sv, p0 as int, tail).0 =~= seq![(t@, a as int, b as int)]
                        + lex_from(sv, n as int, next).0);
                    assert(gt.push((t@, a as int, b as int)) + lex_from(sv, n as int, next).0 =~= gt
                        + lex_from(sv, p0 as int, tail).0);
                    gt = gt.push((t@, a as int, b as int));
                }
                toks.push((t, Span { start: offsets[a], end: offsets[b] }));
                p0 = n;
                tail = next;
            },
            Stepped::Failed(f) => {
                let mut r = p0 + 1;
                loop
                    invariant
                        sv == s@,
                        p0 < sv.len(),
                        p0 + 1 <= r <= sv.len(),
                        item(sv, p0 as int) == Item::Failed(f as int),
                        first_token_from(sv, p0 + 1) == first_token_from(sv, r as int),
                    ensures
                        p0 + 1 <= r <= sv.len(),
                        first_token_from(sv, p0 + 1) == first_token_from(sv, r as int),
                        r < sv.len() ==> item(sv, r as int) is Token,
                    decreases sv.len() - r,
                {
                    if r >= s.len() {
                        break;
                    }
                    proof {
                        lemma_item_progress(sv, r as int);
                    }
                    match item_at(s, r) {
                        Stepped::Token(_, _, _, _) => {
                            break;
                        },
                        Stepped::Failed(_) => {
                            r = r + 1;
                        },
                    }
                }
                proof {
                    lemma_item_progress(sv, p0 as int);
                }
                let stops = r >= s.len();
                let err = error_at_index(s, offsets, f, p0, stops, tail);
                let ghost before = errs@;
                errs.push(err);
                proof {
                    assert(lex_errors_view(errs@) =~= lex_errors_view(before).push(err@));
                }
                if r >= s.len() {
                    proof {
                        assert(first_token_from(sv, r as int) is None);
                        assert(lex_from(sv, p0 as int, tail).1 =~= seq![(f as int, p0 as int, true, tail)]);
                        assert(ge.push((f as int, p0 as int, true, tail)) =~= total.1);
                        assert(lex_errors_view(errs@) =~= total.1.map_values(
                            |e: (int, int, bool, Tail)| error_at(sv, e),
                        ));
                    }
                    return LexOutput { tokens: None, errors: errs };
                }
                match item_at(s, r) {
                    Stepped::Token(t, a, b, n) => {
                        let next = tail_at(&t, b, n);
                        proof {
                            lemma_item_progress(sv, r as int);
                            let e = (f as int, p0 as int, false, tail);
                            assert(lex_from(sv, p0 as int, tail).0 =~= seq![(t@, a as int, b as int)]
                                + lex_from(sv, n as int, next).0);
                            assert(lex_from(sv, p0 as int, tail).1 =~= seq![e] + lex_from(
                                sv,
                                n as int,
                                next,
                            ).1);
                            assert(gt.push((t@, a as int, b as int)) + lex_from(sv, n as int, next).0
                                =~= gt + lex_from(sv, p0 as int, tail).0);
                            assert(ge.push(e) + lex_from(sv, n as int, next).1 =~= ge + lex_from(
                                sv,
                                p0 as int,
                                tail,
                            ).1);
                            gt = gt.push((t@, a as int, b as int));
                            ge = ge.push(e);
                            assert(lex_errors_view(errs@) =~= ge.map_values(
                                |e: (int, int, bool, Tail)| error_at(sv, e),
                            ));
                        }
                        toks.push((t, Span { start: offsets[a], end: offsets[b] }));
                        p0 = n;
                        tail = next;
                    },
                    Stepped::Failed(_) => {
                        return LexOutput { tokens: None, errors: errs };
                    },
                }
            },
        }
    }
}

/// Lexes the script `src`.
pub fn lexer(src: &str) -> (out: LexOutput)
    ensures
        out.spec_tokens() == lex(src@).0,
        lex_errors_view(out.errors@) == lex(src@).1,
{
    let s = chars_of(src);
    let n = src.as_bytes().len();
    proof {
        lemma_utf8_len_encode(src@);
    }
    let offsets = byte_offsets(&s);
    lex_chars(&s, &offsets)
}

// ---------------------------------------------------------------- expectations in messages

/// How an expectation of the lexer is written in messages.
pub open spec fn lex_expected_text(e: LexExpected) -> Seq<char> {
    match e {
        LexExpected::Char(c) => seq!['\'', c, '\''],
        LexExpected::Keyword => seq!['\'', '"', 't', 'e', 's', 't', '"', '\''],
        LexExpected::Any => seq!['a', 'n', 'y'],
        LexExpected::SomethingElse => seq!['s', 'o', 'm', 'e', 't', 'h', 'i', 'n', 'g', ' ', 'e', 'l', 's', 'e'],
        LexExpected::EndOfInput => seq!['e', 'n', 'd', ' ', 'o', 'f', ' ', 'i', 'n', 'p', 'u', 't'],
    }
}

/// The expectations written as a list.
pub open spec fn lex_expected_list_text(es: Seq<LexExpected>) -> Seq<char> {
    list_text(es.map_values(|e: LexExpected| lex_expected_text(e)))
}

impl LexExpected {
    /// The expectation as it is written in messages.
    pub fn to_text(&self) -> (r: String)
        ensures
            r@ == lex_expected_text(*self),
    {
        match self {
            LexExpected::Char(c) => {
                let mut r = String::from_str("'");
                push_char(&mut r, *c);
                r.append("'");
                proof {
                    reveal_strlit("'");
                    assert(r@ =~= lex_expected_text(*self));
                }
                r
            },
            LexExpected::Keyword => {
                let r = String::from_str("'\"test\"'");
                proof {
                    reveal_strlit("'\"test\"'");
                    assert(r@ =~= lex_expected_text(*self));
                }
                r
            },
            LexExpected::Any => {
                let r = String::from_str("any");
                proof {
                    reveal_strlit("any");
                    assert(r@ =~= lex_expected_text(*self));
                }
                r
            },
            LexExpected::SomethingElse => {
                let r = String::from_str("something else");
                proof {
                    reveal_strlit("something else");
                    assert(r@ =~= lex_expected_text(*self));
                }
                r
            },
            LexExpected::EndOfInput => {
                let r = String::from_str("end of input");
                proof {
                    reveal_strlit("end of input");
                    assert(r@ =~= lex_expected_text(*self));
                }
                r
            },
        }
    }
}

/// The expectations written as a list (see [`lex_expected_list_text`]).
pub fn lex_expected_message(es: &Vec<LexExpected>) -> (r: String)
    ensures
        r@ == lex_expected_list_text(es@),
{
    let mut texts: Vec<String> = Vec::new();
    let mut i: usize = 0;
    while i < es.len()
        invariant
            i <= es@.len(),
            strings_view(texts@) == es@.take(i as int).map_values(
                |e: LexExpected| lex_expected_text(e),
            ),
        decreases es@.len() - i,
    {
        let t = es[i].to_text();
        let ghost before = texts@;
        texts.push(t);
        proof {
            assert(strings_view(texts@) =~= strings_view(before).push(t@));
            assert(es@.take(i + 1).map_values(|e: LexExpected| lex_expected_text(e)) =~= es@.take(
                i as int,
            ).map_values(|e: LexExpected| lex_expected_text(e)).push(lex_expected_text(es@[i as int])));
        }
        i = i + 1;
    }
    proof {
        assert(es@.take(i as int) =~= es@);
    }
    list_message(&texts)
}

// ---------------------------------------------------------------- tokens in messages

/// How a token is written in messages.
pub open spec fn token_text(t: SpecToken) -> Seq<char> {
    match t {
        SpecToken::Str(s) => seq!['"'] + s + seq!['"'],
        SpecToken::Keyword(k) => seq!['k', 'e', 'y', 'w', 'o', 'r', 'd', ' ', '`'] + k + seq!['`'],
        SpecToken::Ident(i) => seq!['i', 'd', 'e', 'n', 't', ' ', '`'] + i + seq!['`'],
        SpecToken::OpenParen => seq!['('],
        SpecToken::CloseParen => seq![')'],
        SpecToken::OpenCurly => seq!['{'],
        SpecToken::CloseCurly => seq!['}'],
        SpecToken::Dot => seq!['.'],
        SpecToken::Comma => seq![','],
        SpecToken::Semicolon => seq![';'],
    }
}

fn literal(s: &str) -> (r: String)
    ensures
        r@ == s@,
{
    String::from_str(s)
}

impl Token {
    /// The token as it is written in messages.
    pub fn to_text(&self) -> (r: String)
        ensures
            r@ == token_text(self@),
    {
        let r = match self {
            Token::String(s) => {
                let mut r = literal("\"");
                r.append(s.as_str());
                r.append("\"");
                r
            },
            Token::Keyword(k) => {
                let mut r = literal("keyword `");
                r.append(k.as_str());
                r.append("`");
                r
            },
            Token::Ident(i) => {
                let mut r = literal("ident `");
                r.append(i.as_str());
                r.append("`");
                r
            },
            Token::OpenParen => literal("("),
            Token::CloseParen => literal(")"),
            Token::OpenCurly => literal("{"),
            Token::CloseCurly => literal("}"),
            Token::Dot => literal("."),
            Token::Comma => literal(","),
            Token::Semicolon => literal(";"),
        };
        proof {
            reveal_strlit("\"");
            reveal_strlit("keyword `");
            reveal_strlit("ident `");
            reveal_strlit("`");
            reveal_strlit("(");
            reveal_strlit(")");
            reveal_strlit("{");
            reveal_strlit("}");
            reveal_strlit(".");
            reveal_strlit(",");
            reveal_strlit(";");
            assert(r@ =~= token_text(self@));
        }
        r
    }
}

} // verus!
