//! The parser: from spanned tokens to the syntax tree of a script.
//!
//! The grammar, tried as written (ordered choice with backtracking):
//!
//! ```text
//! module     := statement*                       (then the end of the tokens)
//! statement  := test | expression ';'
//! test       := 'test' IDENT '(' expression ')' statement
//! expression := base (IDENT base)*               (method calls, folded to the left)
//! base       := STRING | IDENT | block
//! block      := '{' statement* expression? '}'
//! ```
//!
//! On failure the error names the token at the furthest index at which any attempt
//! failed (or the end of the input), and what the attempts that failed there expected,
//! each once, in the order they were made: a token (`test`, a bracket or `;`), "something
//! else" (a string or an identifier), or the end of the input.
use vstd::prelude::*;

use crate::ast::{
    Block, Expression, ExpressionKind, Ident, MethodCall, Module, SpecBlock, SpecExpression,
    SpecExpressionKind, SpecIdent, SpecMethodCall, SpecModule, SpecStatement, SpecStatementKind,
    SpecStringLiteral, SpecTest, Statement, StatementKind, StringLiteral, Test,
    statements_view,
};
use crate::lexer::{SpecToken, Token};
use crate::message::{list_message, list_text, strings_view};
use crate::span::Span;

verus! {

/// What the parser expected at the point where it stopped.
#[derive(Clone, Copy, Debug, PartialEq, Eq, Structural)]
pub enum Expected {
    /// The keyword `test`.
    TestKeyword,
    OpenParen,
    CloseParen,
    OpenCurly,
    CloseCurly,
    Semicolon,
    /// A token of another kind: a string literal or an identifier.
    SomethingElse,
    EndOfInput,
}

/// A parse error: the token found where parsing could not go on (`None` at the end of
/// the input), its span, and what the parser expected there, in the order it tried.
#[derive(Debug)]
pub struct ParseError {
    pub span: Span,
    pub found: Option<Token>,
    pub expected: Vec<Expected>,
}

/// A parse error over mathematical values.
pub struct SpecParseError {
    pub found: Option<SpecToken>,
    pub span: Span,
    pub expected: Seq<Expected>,
}

impl View for ParseError {
    type V = SpecParseError;

    open spec fn view(&self) -> SpecParseError {
        SpecParseError {
            found: match self.found {
                Some(t) => Some(t@),
                None => None,
            },
            span: self.span,
            expected: self.expected@,
        }
    }
}

/// How an expectation is written in messages.
pub open spec fn expected_text(e: Expected) -> Seq<char> {
    match e {
        Expected::TestKeyword => seq!['\'', 'k', 'e', 'y', 'w', 'o', 'r', 'd', ' ', '`', 't', 'e', 's', 't', '`', '\''],
        Expected::OpenParen => seq!['\'', '(', '\''],
        Expected::CloseParen => seq!['\'', ')', '\''],
        Expected::OpenCurly => seq!['\'', '{', '\''],
        Expected::CloseCurly => seq!['\'', '}', '\''],
        Expected::Semicolon => seq!['\'', ';', '\''],
        Expected::SomethingElse => seq!['s', 'o', 'm', 'e', 't', 'h', 'i', 'n', 'g', ' ', 'e', 'l', 's', 'e'],
        Expected::EndOfInput => seq!['e', 'n', 'd', ' ', 'o', 'f', ' ', 'i', 'n', 'p', 'u', 't'],
    }
}

/// The expectations written as a list.
pub open spec fn expected_list_text(es: Seq<Expected>) -> Seq<char> {
    list_text(es.map_values(|e: Expected| expected_text(e)))
}

impl Expected {
    /// The expectation as it is written in messages.
    pub fn to_text(&self) -> (r: String)
        ensures
            r@ == expected_text(*self),
    {
        let t = match self {
            Expected::TestKeyword => "'keyword `test`'",
            Expected::OpenParen => "'('",
            Expected::CloseParen => "')'",
            Expected::OpenCurly => "'{'",
            Expected::CloseCurly => "'}'",
            Expected::Semicolon => "';'",
            Expected::SomethingElse => "something else",
            Expected::EndOfInput => "end of input",
        };
        proof {
            reveal_strlit("'keyword `test`'");
            reveal_strlit("'('");
            reveal_strlit("')'");
            reveal_strlit("'{'");
            reveal_strlit("'}'");
            reveal_strlit("';'");
            reveal_strlit("something else");
            reveal_strlit("end of input");
        }
        let r = String::from_str(t);
        assert(r@ =~= expected_text(*self));
        r
    }
}

/// The expectations written as a list (see [`expected_list_text`]).
pub fn expected_message(es: &Vec<Expected>) -> (r: String)
    ensures
        r@ == expected_list_text(es@),
{
    let mut texts: Vec<String> = Vec::new();
    let mut i: usize = 0;
    while i < es.len()
        invariant
            i <= es@.len(),
            strings_view(texts@) == es@.take(i as int).map_values(|e: Expected| expected_text(e)),
        decreases es@.len() - i,
    {
        let t = es[i].to_text();
        let ghost before = texts@;
        texts.push(t);
        proof {
            assert(strings_view(texts@) =~= strings_view(before).push(t@));
            assert(es@.take(i + 1).map_values(|e: Expected| expected_text(e)) =~= es@.take(
                i as int,
            ).map_values(|e: Expected| expected_text(e)).push(expected_text(es@[i as int])));
        }
        i = i + 1;
    }
    proof {
        assert(es@.take(i as int) =~= es@);
    }
    list_message(&texts)
}

// ---------------------------------------------------------------- the model

/// The spanned tokens as mathematical values.
pub open spec fn tokens_view(ts: Seq<(Token, Span)>) -> Seq<(SpecToken, Span)> {
    ts.map_values(|t: (Token, Span)| (t.0@, t.1))
}

/// The furthest token index at which an attempt failed, and what the attempts that
/// failed there expected, in the order they were made.
pub struct SpecFurthest {
    pub at: int,
    pub expected: Seq<Expected>,
}

/// An attempt failed at `at`, expecting `e`.
pub open spec fn stop(at: int, e: Expected) -> Option<SpecFurthest> {
    Some(SpecFurthest { at, expected: seq![e] })
}

/// `e` followed by the items of `more` that it does not hold yet, in order.
pub open spec fn add_new(e: Seq<Expected>, more: Seq<Expected>) -> Seq<Expected>
    decreases more.len(),
{
    if more.len() == 0 {
        e
    } else {
        let e1 = add_new(e, more.drop_last());
        if e1.contains(more.last()) {
            e1
        } else {
            e1.push(more.last())
        }
    }
}

/// The failures of two attempts, made in this order: the one further on wins, and at
/// the same index what they expected is joined (`None` means "no failure").
pub open spec fn merge(a: Option<SpecFurthest>, b: Option<SpecFurthest>) -> Option<SpecFurthest> {
    match (a, b) {
        (None, _) => b,
        (_, None) => a,
        (Some(x), Some(y)) => if x.at > y.at {
            a
        } else if x.at < y.at {
            b
        } else {
            Some(SpecFurthest { at: x.at, expected: add_new(x.expected, y.expected) })
        },
    }
}

/// A parse attempt: the value and the index after it on success, and the furthest
/// failure of the attempts it made.
pub struct Attempt<T> {
    pub res: Option<(T, int)>,
    pub far: Option<SpecFurthest>,
}

/// An attempt that failed, with its furthest failure.
pub open spec fn failed<T>(far: Option<SpecFurthest>) -> Attempt<T> {
    Attempt { res: None, far }
}

/// The span of the tokens `i..j` (not empty).
pub open spec fn span_over(ts: Seq<(SpecToken, Span)>, i: int, j: int) -> Span {
    Span { start: ts[i].1.start, end: ts[j - 1].1.end }
}

/// `t` is the keyword `test`.
pub open spec fn is_test_keyword(t: SpecToken) -> bool {
    t matches SpecToken::Keyword(k) && k == seq!['t', 'e', 's', 't']
}

/// A string literal token at `i`.
pub open spec fn parse_string_literal(ts: Seq<(SpecToken, Span)>, i: int) -> Attempt<
    SpecStringLiteral,
> {
    if 0 <= i < ts.len() && ts[i].0 is Str {
        Attempt {
            res: Some((SpecStringLiteral { string: ts[i].0->Str_0, span: ts[i].1 }, i + 1)),
            far: None,
        }
    } else {
        failed(stop(i, Expected::SomethingElse))
    }
}

/// An identifier token at `i`.
pub open spec fn parse_ident(ts: Seq<(SpecToken, Span)>, i: int) -> Attempt<SpecIdent> {
    if 0 <= i < ts.len() && ts[i].0 is Ident {
        Attempt {
            res: Some((SpecIdent { span: ts[i].1, ident: ts[i].0->Ident_0 }, i + 1)),
            far: None,
        }
    } else {
        failed(stop(i, Expected::SomethingElse))
    }
}

/// A block from `i`: `{`, statements, an optional tail, `}`.
pub open spec fn parse_block(ts: Seq<(SpecToken, Span)>, i: int) -> Attempt<SpecBlock>
    decreases ts.len() - i, 0nat,
{
    if !(0 <= i < ts.len() && ts[i].0 is OpenCurly) {
        failed(stop(i, Expected::OpenCurly))
    } else {
        let (body, j, f1) = parse_statements(ts, i + 1);
        if j < i + 1 || j > ts.len() {
            failed(stop(i, Expected::OpenCurly))
        } else {
            let e = parse_expression(ts, j);
            let (tail, k) = match e.res {
                Some((x, k)) => (Some(x), k),
                None => (None, j),
            };
            let far = merge(f1, e.far);
            if 0 <= k < ts.len() && ts[k].0 is CloseCurly {
                Attempt {
                    res: Some((SpecBlock { body, tail, span: span_over(ts, i, k + 1) }, k + 1)),
                    far,
                }
            } else {
                failed(merge(far, stop(k, Expected::CloseCurly)))
            }
        }
    }
}

/// An expression from `i` without method calls: a block, a string literal or an identifier.
pub open spec fn parse_base(ts: Seq<(SpecToken, Span)>, i: int) -> Attempt<SpecExpression>
    decreases ts.len() - i, 1nat,
{
    if !(0 <= i <= ts.len()) {
        failed(stop(i, Expected::SomethingElse))
    } else if i < ts.len() && ts[i].0 is Str {
        let lit = SpecStringLiteral { string: ts[i].0->Str_0, span: ts[i].1 };
        Attempt {
            res: Some(
                (
                    SpecExpression {
                        kind: SpecExpressionKind::StringLiteral(lit),
                        span: ts[i].1,
                    },
                    i + 1,
                ),
            ),
            far: None,
        }
    } else if i < ts.len() && ts[i].0 is Ident {
        let id = SpecIdent { span: ts[i].1, ident: ts[i].0->Ident_0 };
        Attempt {
            res: Some(
                (SpecExpression { kind: SpecExpressionKind::Ident(id), span: ts[i].1 }, i + 1),
            ),
            far: stop(i, Expected::SomethingElse),
        }
    } else {
        let b = parse_block(ts, i);
        match b.res {
            Some((bl, j)) => Attempt {
                res: Some(
                    (
                        SpecExpression {
                            kind: SpecExpressionKind::Block(Box::new(bl)),
                            span: bl.span,
                        },
                        j,
                    ),
                ),
                far: merge(stop(i, Expected::SomethingElse), b.far),
            },
            None => failed(merge(stop(i, Expected::SomethingElse), b.far)),
        }
    }
}

/// Method calls after the receiver `recv` (which spans the tokens `i0..j`): as many
/// `IDENT base` pairs as can be read, folded to the left.
pub open spec fn parse_calls(
    ts: Seq<(SpecToken, Span)>,
    i0: int,
    recv: SpecExpression,
    j: int,
    far: Option<SpecFurthest>,
) -> Attempt<SpecExpression>
    decreases ts.len() - j, 2nat,
{
    if !(0 <= i0 < j <= ts.len()) {
        Attempt { res: Some((recv, j)), far }
    } else {
        let m = parse_ident(ts, j);
        match m.res {
            None => Attempt { res: Some((recv, j)), far: merge(far, m.far) },
            Some((method, _)) => {
                let a = parse_base(ts, j + 1);
                match a.res {
                    Some((arg, k)) => {
                        if k <= j + 1 || k > ts.len() {
                            Attempt { res: Some((recv, j)), far: merge(far, a.far) }
                        } else {
                            let span = span_over(ts, i0, k);
                            let call = SpecMethodCall { receiver: recv, method, argument: arg, span };
                            parse_calls(
                                ts,
                                i0,
                                SpecExpression {
                                    kind: SpecExpressionKind::MethodCall(Box::new(call)),
                                    span,
                                },
                                k,
                                merge(far, a.far),
                            )
                        }
                    },
                    None => Attempt { res: Some((recv, j)), far: merge(far, a.far) },
                }
            },
        }
    }
}

/// An expression from `i`: a base, then any number of method calls.
pub open spec fn parse_expression(ts: Seq<(SpecToken, Span)>, i: int) -> Attempt<SpecExpression>
    decreases ts.len() - i, 3nat,
{
    let b = parse_base(ts, i);
    match b.res {
        None => failed(b.far),
        Some((x, j)) => {
            if j <= i || j > ts.len() || i < 0 {
                failed(b.far)
            } else {
                parse_calls(ts, i, x, j, b.far)
            }
        },
    }
}

/// A test from `i`: `test`, a name, an expression in parentheses (its command), and a
/// statement (its body).
pub open spec fn parse_test(ts: Seq<(SpecToken, Span)>, i: int) -> Attempt<SpecTest>
    decreases ts.len() - i, 4nat,
{
    if !(0 <= i < ts.len() && is_test_keyword(ts[i].0)) {
        failed(stop(i, Expected::TestKeyword))
    } else {
        let n = parse_ident(ts, i + 1);
        match n.res {
            None => failed(n.far),
            Some((name, _)) => {
                if !(i + 2 < ts.len() && ts[i + 2].0 is OpenParen) {
                    failed(stop(i + 2, Expected::OpenParen))
                } else {
                    let c = parse_expression(ts, i + 3);
                    match c.res {
                        None => failed(c.far),
                        Some((command, j)) => {
                            if j < i + 3 || j > ts.len() {
                                failed(c.far)
                            } else if !(j < ts.len() && ts[j].0 is CloseParen) {
                                failed(merge(c.far, stop(j, Expected::CloseParen)))
                            } else {
                                let b = parse_statement(ts, j + 1);
                                match b.res {
                                    None => failed(merge(c.far, b.far)),
                                    Some((body, k)) => Attempt {
                                        res: Some(
                                            (
                                                SpecTest {
                                                    name,
                                                    command,
                                                    body: Box::new(body),
                                                    span: span_over(ts, i, k),
                                                },
                                                k,
                                            ),
                                        ),
                                        far: merge(c.far, b.far),
                                    },
                                }
                            }
                        },
                    }
                }
            },
        }
    }
}

/// A statement from `i`: a test, or an expression followed by `;`.
pub open spec fn parse_statement(ts: Seq<(SpecToken, Span)>, i: int) -> Attempt<SpecStatement>
    decreases ts.len() - i, 5nat,
{
    let t = parse_test(ts, i);
    match t.res {
        Some((x, j)) => Attempt {
            res: Some(
                (SpecStatement { kind: SpecStatementKind::Test(x), span: span_over(ts, i, j) }, j),
            ),
            far: t.far,
        },
        None => {
            let e = parse_expression(ts, i);
            let far = merge(t.far, e.far);
            match e.res {
                None => failed(far),
                Some((x, j)) => {
                    if 0 <= j < ts.len() && ts[j].0 is Semicolon {
                        Attempt {
                            res: Some(
                                (
                                    SpecStatement {
                                        kind: SpecStatementKind::Expression(x),
                                        span: span_over(ts, i, j + 1),
                                    },
                                    j + 1,
                                ),
                            ),
                            far,
                        }
                    } else {
                        failed(merge(far, stop(j, Expected::Semicolon)))
                    }
                },
            }
        },
    }
}

/// As many statements as can be read from `i`: the statements, the index after them,
/// and the furthest failure.
pub open spec fn parse_statements(ts: Seq<(SpecToken, Span)>, i: int) -> (
    Seq<SpecStatement>,
    int,
    Option<SpecFurthest>,
)
    decreases ts.len() - i, 7nat,
{
    parse_statements_after(ts, i, None)
}

/// As many statements as can be read from `i`, after attempts whose furthest failure is
/// `far`.
pub open spec fn parse_statements_after(
    ts: Seq<(SpecToken, Span)>,
    i: int,
    far: Option<SpecFurthest>,
) -> (Seq<SpecStatement>, int, Option<SpecFurthest>)
    decreases ts.len() - i, 6nat,
{
    let s = parse_statement(ts, i);
    let far1 = merge(far, s.far);
    match s.res {
        None => (Seq::empty(), i, far1),
        Some((x, j)) => {
            if j <= i || j > ts.len() {
                (Seq::empty(), i, far1)
            } else {
                let r = parse_statements_after(ts, j, far1);
                (seq![x] + r.0, r.1, r.2)
            }
        },
    }
}

/// The error reported for the furthest failure `f`: the token there and its span (or
/// the end of the input and `eof`), and what was expected there.
pub open spec fn error_at(ts: Seq<(SpecToken, Span)>, f: SpecFurthest, eof: Span) -> SpecParseError {
    if 0 <= f.at < ts.len() {
        SpecParseError { found: Some(ts[f.at].0), span: ts[f.at].1, expected: f.expected }
    } else {
        SpecParseError { found: None, span: eof, expected: f.expected }
    }
}

/// The whole script: `Ok` when the statements take all the tokens, else the error at the
/// furthest failure.
pub open spec fn parse_module(ts: Seq<(SpecToken, Span)>, eof: Span) -> Result<
    SpecModule,
    SpecParseError,
> {
    let r = parse_statements(ts, 0);
    if r.1 == ts.len() {
        Ok(
            SpecModule {
                ast: r.0,
                span: if ts.len() > 0 {
                    span_over(ts, 0, ts.len() as int)
                } else {
                    eof
                },
            },
        )
    } else {
        let f = merge(r.2, stop(r.1, Expected::EndOfInput));
        Err(error_at(ts, f->0, eof))
    }
}

// ---------------------------------------------------------------- what a module keeps

/// The statements `stmts` are made, in order, of the consecutive runs of tokens that the
/// boundaries `b` mark: statement `j` spans the tokens `b[j]..b[j + 1]`, which are not none.
pub open spec fn tiles(ts: Seq<(SpecToken, Span)>, stmts: Seq<SpecStatement>, b: Seq<int>) -> bool {
    &&& b.len() == stmts.len() + 1
    &&& forall|j: int|
        0 <= j < stmts.len() ==> b[j] < b[j + 1] && (#[trigger] stmts[j]).span == span_over(
            ts,
            b[j],
            b[j + 1],
        )
}

/// The statements read from `i` on are made of consecutive runs of tokens from `i` to the
/// index where reading stopped.
proof fn lemma_statements_tile(ts: Seq<(SpecToken, Span)>, i: int, far: Option<SpecFurthest>) -> (b: Seq<int>)
    ensures
        tiles(ts, parse_statements_after(ts, i, far).0, b),
        b[0] == i,
        b.last() == parse_statements_after(ts, i, far).1,
    decreases ts.len() - i,
{
    let s = parse_statement(ts, i);
    let far1 = merge(far, s.far);
    match s.res {
        None => seq![i],
        Some((x, j)) => {
            if j <= i || j > ts.len() {
                seq![i]
            } else {
                let b1 = lemma_statements_tile(ts, j, far1);
                let r1 = parse_statements_after(ts, j, far1);
                let stmts = seq![x] + r1.0;
                let b = seq![i] + b1;
                assert(stmts == parse_statements_after(ts, i, far).0);
                assert(x.span == span_over(ts, i, j));
                assert forall|k: int|
                    0 <= k < stmts.len() implies b[k] < b[k + 1] && (#[trigger] stmts[k]).span
                    == span_over(ts, b[k], b[k + 1]) by {
                    if k > 0 {
                        assert(stmts[k] == r1.0[k - 1]);
                        assert(b[k] == b1[k - 1]);
                        assert(b[k + 1] == b1[k]);
                    }
                }
                b
            }
        },
    }
}

/// A parsed module keeps every statement of the script: its statements, in order, are
/// made of consecutive runs of tokens that start at the first token and end at the last,
/// so every token belongs to exactly one of them and none is dropped.
pub proof fn lemma_parse_keeps_every_statement(ts: Seq<(SpecToken, Span)>, eof: Span)
    ensures
        parse_module(ts, eof) is Ok ==> exists|b: Seq<int>|
            tiles(ts, parse_module(ts, eof)->Ok_0.ast, b) && b[0] == 0 && b.last() == ts.len(),
{
    let b = lemma_statements_tile(ts, 0, None);
    if parse_module(ts, eof) is Ok {
        assert(tiles(ts, parse_module(ts, eof)->Ok_0.ast, b) && b[0] == 0 && b.last() == ts.len());
    }
}

// ---------------------------------------------------------------- the parser

/// The furthest token index at which an attempt failed, and what the attempts that
/// failed there expected.
pub struct Furthest {
    pub at: usize,
    pub expected: Vec<Expected>,
}

/// A parse attempt: the value and the index after it on success, and the furthest
/// failure of the attempts it made.
pub struct Parsed<T> {
    pub res: Option<(T, usize)>,
    pub far: Option<Furthest>,
}

/// The furthest failure over mathematical values.
pub open spec fn far_view(f: Option<Furthest>) -> Option<SpecFurthest> {
    match f {
        Some(x) => Some(SpecFurthest { at: x.at as int, expected: x.expected@ }),
        None => None,
    }
}

fn stop_at(at: usize, e: Expected) -> (r: Option<Furthest>)
    ensures
        far_view(r) == stop(at as int, e),
{
    let mut expected = Vec::new();
    expected.push(e);
    assert(expected@ =~= seq![e]);
    Some(Furthest { at, expected })
}

/// Appends to `e` the items of `more` that it does not hold yet, in order.
fn add_new_exec(e: &mut Vec<Expected>, more: &Vec<Expected>)
    ensures
        final(e)@ == add_new(old(e)@, more@),
{
    let ghost start = e@;
    let mut i: usize = 0;
    proof {
        assert(more@.take(0) =~= Seq::<Expected>::empty());
    }
    while i < more.len()
        invariant
            i <= more@.len(),
            e@ == add_new(start, more@.take(i as int)),
        decreases more@.len() - i,
    {
        proof {
            assert(more@.take(i + 1).drop_last() =~= more@.take(i as int));
            assert(more@.take(i + 1).last() == more@[i as int]);
        }
        let x = more[i];
        let mut k: usize = 0;
        let mut found = false;
        while k < e.len()
            invariant
                k <= e@.len(),
                found == (exists|m: int| 0 <= m < k && e@[m] == x),
            decreases e@.len() - k,
        {
            if e[k] == x {
                found = true;
            }
            k = k + 1;
        }
        proof {
            if found {
                let m = choose|m: int| 0 <= m < k && e@[m] == x;
                assert(e@.contains(x));
            } else {
                assert(!e@.contains(x));
            }
        }
        if !found {
            e.push(x);
        }
        i = i + 1;
    }
    proof {
        assert(more@.take(i as int) =~= more@);
    }
}

/// The exec attempt `r` is the model attempt `a`, viewing values with `v`.
pub open spec fn same_attempt<T, V>(r: Parsed<T>, a: Attempt<V>, v: spec_fn(T) -> V) -> bool {
    &&& far_view(r.far) == a.far
    &&& match r.res {
        Some((x, j)) => a.res == Some((v(x), j as int)),
        None => a.res is None,
    }
}

fn fmax(a: Option<Furthest>, b: Option<Furthest>) -> (r: Option<Furthest>)
    ensures
        far_view(r) == merge(far_view(a), far_view(b)),
{
    match (a, b) {
        (None, b) => b,
        (a, None) => a,
        (Some(x), Some(y)) => {
            if x.at > y.at {
                Some(x)
            } else if x.at < y.at {
                Some(y)
            } else {
                let mut expected = x.expected;
                add_new_exec(&mut expected, &y.expected);
                Some(Furthest { at: x.at, expected })
            }
        },
    }
}

fn span_of_tokens(ts: &Vec<(Token, Span)>, i: usize, j: usize) -> (sp: Span)
    requires
        i < j <= ts@.len(),
    ensures
        sp == span_over(tokens_view(ts@), i as int, j as int),
{
    Span { start: ts[i].1.start, end: ts[j - 1].1.end }
}

fn is_open_curly(ts: &Vec<(Token, Span)>, i: usize) -> (b: bool)
    ensures
        b == (0 <= i < ts@.len() && tokens_view(ts@)[i as int].0 is OpenCurly),
{
    i < ts.len() && match &ts[i].0 {
        Token::OpenCurly => true,
        _ => false,
    }
}

fn is_close_curly(ts: &Vec<(Token, Span)>, i: usize) -> (b: bool)
    ensures
        b == (0 <= i < ts@.len() && tokens_view(ts@)[i as int].0 is CloseCurly),
{
    i < ts.len() && match &ts[i].0 {
        Token::CloseCurly => true,
        _ => false,
    }
}

fn is_open_paren(ts: &Vec<(Token, Span)>, i: usize) -> (b: bool)
    ensures
        b == (0 <= i < ts@.len() && tokens_view(ts@)[i as int].0 is OpenParen),
{
    i < ts.len() && match &ts[i].0 {
        Token::OpenParen => true,
        _ => false,
    }
}

fn is_close_paren(ts: &Vec<(Token, Span)>, i: usize) -> (b: bool)
    ensures
        b == (0 <= i < ts@.len() && tokens_view(ts@)[i as int].0 is CloseParen),
{
    i < ts.len() && match &ts[i].0 {
        Token::CloseParen => true,
        _ => false,
    }
}

fn is_semicolon(ts: &Vec<(Token, Span)>, i: usize) -> (b: bool)
    ensures
        b == (0 <= i < ts@.len() && tokens_view(ts@)[i as int].0 is Semicolon),
{
    i < ts.len() && match &ts[i].0 {
        Token::Semicolon => true,
        _ => false,
    }
}

fn is_test_keyword_at(ts: &Vec<(Token, Span)>, i: usize) -> (b: bool)
    ensures
        b == (0 <= i < ts@.len() && is_test_keyword(tokens_view(ts@)[i as int].0)),
{
    if i >= ts.len() {
        return false;
    }
    match &ts[i].0 {
        Token::Keyword(k) => {
            let k = k.as_str();
            if k.unicode_len() != 4 {
                return false;
            }
            let b = k.get_char(0) == 't' && k.get_char(1) == 'e' && k.get_char(2) == 's'
                && k.get_char(3) == 't';
            proof {
                if b {
                    assert(k@ =~= seq!['t', 'e', 's', 't']);
                }
            }
            b
        },
        _ => false,
    }
}

impl Ident {
    /// An identifier at `i`, as `parse_ident` gives it.
    pub fn parser(ts: &Vec<(Token, Span)>, i: usize) -> (r: Parsed<Ident>)
        ensures
            same_attempt(r, parse_ident(tokens_view(ts@), i as int), |x: Ident| x@),
            r.res matches Some((_, j)) ==> i < ts@.len() && j == i + 1,
    {
        if i < ts.len() {
            match &ts[i].0 {
                Token::Ident(s) => {
                    return Parsed {
                        res: Some((Ident { span: ts[i].1, ident: s.clone() }, i + 1)),
                        far: None,
                    };
                },
                _ => {},
            }
        }
        Parsed { res: None, far: stop_at(i, Expected::SomethingElse) }
    }
}

impl Block {
    /// A block from `i`, as `parse_block` gives it.
    pub fn parser(ts: &Vec<(Token, Span)>, i: usize) -> (r: Parsed<Block>)
        requires
            i <= ts@.len(),
        ensures
            same_attempt(r, parse_block(tokens_view(ts@), i as int), |x: Block| x@),
            r.res matches Some((_, j)) ==> i < j <= ts@.len(),
        decreases ts@.len() - i, 0nat,
    {
        let ghost tv = tokens_view(ts@);
        let _n = ts.len();
        if !is_open_curly(ts, i) {
            return Parsed { res: None, far: stop_at(i, Expected::OpenCurly) };
        }
        let (body, j, f1) = statements_at(ts, i + 1);
        let e = Expression::parser(ts, j);
        let far = fmax(f1, e.far);
        let (tail, k) = match e.res {
            Some((x, k)) => (Some(x), k),
            None => (None, j),
        };
        if is_close_curly(ts, k) {
            let span = span_of_tokens(ts, i, k + 1);
            let b = Block { body, tail, span };
            proof {
                assert(b@ == SpecBlock {
                    body: parse_statements(tv, i + 1).0,
                    tail: match parse_expression(tv, j as int).res {
                        Some((x, _)) => Some(x),
                        None => None,
                    },
                    span: span_over(tv, i as int, k + 1),
                });
            }
            Parsed { res: Some((b, k + 1)), far }
        } else {
            Parsed { res: None, far: fmax(far, stop_at(k, Expected::CloseCurly)) }
        }
    }
}

fn base_at(ts: &Vec<(Token, Span)>, i: usize) -> (r: Parsed<Expression>)
    requires
        i <= ts@.len(),
    ensures
        same_attempt(r, parse_base(tokens_view(ts@), i as int), |x: Expression| x@),
        r.res matches Some((_, j)) ==> i < j <= ts@.len(),
    decreases ts@.len() - i, 1nat,
{
    let s = StringLiteral::parser(ts, i);
    if let Some((lit, j)) = s.res {
        let span = lit.span;
        let e = Expression { kind: ExpressionKind::StringLiteral(lit), span };
        return Parsed { res: Some((e, j)), far: None };
    }
    let n = Ident::parser(ts, i);
    if let Some((id, j)) = n.res {
        let span = id.span;
        let e = Expression { kind: ExpressionKind::Ident(id), span };
        return Parsed { res: Some((e, j)), far: stop_at(i, Expected::SomethingElse) };
    }
    let b = Block::parser(ts, i);
    let far = fmax(stop_at(i, Expected::SomethingElse), b.far);
    match b.res {
        Some((bl, j)) => {
            let span = bl.span;
            let e = Expression { kind: ExpressionKind::Block(Box::new(bl)), span };
            Parsed { res: Some((e, j)), far }
        },
        None => Parsed { res: None, far },
    }
}

impl StringLiteral {
    /// A string literal at `i`, as `parse_string_literal` gives it.
    pub fn parser(ts: &Vec<(Token, Span)>, i: usize) -> (r: Parsed<StringLiteral>)
        ensures
            same_attempt(r, parse_string_literal(tokens_view(ts@), i as int), |x: StringLiteral| x@),
            r.res matches Some((_, j)) ==> i < ts@.len() && j == i + 1,
    {
        if i < ts.len() {
            match &ts[i].0 {
                Token::String(s) => {
                    return Parsed {
                        res: Some((StringLiteral { string: s.clone(), span: ts[i].1 }, i + 1)),
                        far: None,
                    };
                },
                _ => {},
            }
        }
        Parsed { res: None, far: stop_at(i, Expected::SomethingElse) }
    }
}

impl MethodCall {
    /// Method calls after the receiver `recv`, which spans the tokens `i0..j`: as many
    /// `IDENT base` pairs as can be read, folded to the left.
    #[verifier::loop_isolation(false)]
    pub fn parser(
        ts: &Vec<(Token, Span)>,
        i0: usize,
        receiver: Expression,
        j: usize,
        far0: Option<Furthest>,
    ) -> (r: Parsed<Expression>)
        requires
            i0 < j <= ts@.len(),
        ensures
            same_attempt(
                r,
                parse_calls(tokens_view(ts@), i0 as int, receiver@, j as int, far_view(far0)),
                |x: Expression| x@,
            ),
            r.res matches Some((_, k)) ==> j <= k <= ts@.len(),
        decreases ts@.len() - j, 2nat,
    {
        let ghost tv = tokens_view(ts@);
        let ghost goal = parse_calls(tv, i0 as int, receiver@, j as int, far_view(far0));
        let mut recv = receiver;
        let mut k = j;
        let mut far = far0;
        loop
            invariant
                tv == tokens_view(ts@),
                i0 < j <= k <= ts@.len(),
                goal == parse_calls(tv, i0 as int, recv@, k as int, far_view(far)),
            decreases ts@.len() - k,
        {
            let m = Ident::parser(ts, k);
            let method = match m.res {
                Some((x, _)) => x,
                None => {
                    return Parsed { res: Some((recv, k)), far: fmax(far, m.far) };
                },
            };
            let a = base_at(ts, k + 1);
            match a.res {
                Some((arg, l)) => {
                    let span = span_of_tokens(ts, i0, l);
                    let call = MethodCall { receiver: recv, method, argument: arg, span };
                    recv = Expression { kind: ExpressionKind::MethodCall(Box::new(call)), span };
                    k = l;
                    far = fmax(far, a.far);
                },
                None => {
                    return Parsed { res: Some((recv, k)), far: fmax(far, a.far) };
                },
            }
        }
    }
}

impl Expression {
    /// An expression from `i`, as `parse_expression` gives it.
    pub fn parser(ts: &Vec<(Token, Span)>, i: usize) -> (r: Parsed<Expression>)
        requires
            i <= ts@.len(),
        ensures
            same_attempt(r, parse_expression(tokens_view(ts@), i as int), |x: Expression| x@),
            r.res matches Some((_, j)) ==> i < j <= ts@.len(),
        decreases ts@.len() - i, 3nat,
    {
        let b = base_at(ts, i);
        match b.res {
            Some((recv, j)) => MethodCall::parser(ts, i, recv, j, b.far),
            None => Parsed { res: None, far: b.far },
        }
    }
}

impl Test {
    /// A test from `i`, as `parse_test` gives it.
    pub fn parser(ts: &Vec<(Token, Span)>, i: usize) -> (r: Parsed<Test>)
        requires
            i <= ts@.len(),
        ensures
            same_attempt(r, parse_test(tokens_view(ts@), i as int), |x: Test| x@),
            r.res matches Some((_, j)) ==> i < j <= ts@.len(),
        decreases ts@.len() - i, 4nat,
    {
        let ghost tv = tokens_view(ts@);
        let _n = ts.len();
        if !is_test_keyword_at(ts, i) {
            return Parsed { res: None, far: stop_at(i, Expected::TestKeyword) };
        }
        let n = Ident::parser(ts, i + 1);
        let name = match n.res {
            Some((x, _)) => x,
            None => {
                return Parsed { res: None, far: n.far };
            },
        };
        if !is_open_paren(ts, i + 2) {
            return Parsed { res: None, far: stop_at(i + 2, Expected::OpenParen) };
        }
        let c = Expression::parser(ts, i + 3);
        let (command, j) = match c.res {
            Some(x) => x,
            None => {
                return Parsed { res: None, far: c.far };
            },
        };
        if !is_close_paren(ts, j) {
            return Parsed { res: None, far: fmax(c.far, stop_at(j, Expected::CloseParen)) };
        }
        let b = Statement::parser(ts, j + 1);
        let far = fmax(c.far, b.far);
        match b.res {
            Some((body, k)) => {
                let span = span_of_tokens(ts, i, k);
                Parsed { res: Some((Test { name, command, body: Box::new(body), span }, k)), far }
            },
            None => Parsed { res: None, far },
        }
    }
}

impl Statement {
    /// A statement from `i`, as `parse_statement` gives it.
    pub fn parser(ts: &Vec<(Token, Span)>, i: usize) -> (r: Parsed<Statement>)
        requires
            i <= ts@.len(),
        ensures
            same_attempt(r, parse_statement(tokens_view(ts@), i as int), |x: Statement| x@),
            r.res matches Some((_, j)) ==> i < j <= ts@.len(),
        decreases ts@.len() - i, 5nat,
    {
        let _n = ts.len();
        let t = Test::parser(ts, i);
        match t.res {
            Some((x, j)) => {
                let span = span_of_tokens(ts, i, j);
                return Parsed {
                    res: Some((Statement { kind: StatementKind::Test(x), span }, j)),
                    far: t.far,
                };
            },
            None => {},
        }
        let e = Expression::parser(ts, i);
        let far = fmax(t.far, e.far);
        match e.res {
            None => Parsed { res: None, far },
            Some((x, j)) => {
                if is_semicolon(ts, j) {
                    let span = span_of_tokens(ts, i, j + 1);
                    Parsed {
                        res: Some((Statement { kind: StatementKind::Expression(x), span }, j + 1)),
                        far,
                    }
                } else {
                    Parsed { res: None, far: fmax(far, stop_at(j, Expected::Semicolon)) }
                }
            },
        }
    }
}

fn statements_at(ts: &Vec<(Token, Span)>, i: usize) -> (r: (Vec<Statement>, usize, Option<Furthest>))
    requires
        i <= ts@.len(),
    ensures
        statements_view(r.0@) == parse_statements(tokens_view(ts@), i as int).0,
        r.1 == parse_statements(tokens_view(ts@), i as int).1,
        far_view(r.2) == parse_statements(tokens_view(ts@), i as int).2,
        i <= r.1 <= ts@.len(),
    decreases ts@.len() - i, 6nat,
{
    let ghost tv = tokens_view(ts@);
    let mut acc: Vec<Statement> = Vec::new();
    let mut far: Option<Furthest> = None;
    let mut j = i;
    loop
        invariant
            tv == tokens_view(ts@),
            i <= j <= ts@.len(),
            parse_statements(tv, i as int).0 == statements_view(acc@) + parse_statements_after(
                tv,
                j as int,
                far_view(far),
            ).0,
            parse_statements(tv, i as int).1 == parse_statements_after(tv, j as int, far_view(far)).1,
            parse_statements(tv, i as int).2 == parse_statements_after(tv, j as int, far_view(far)).2,
        decreases ts@.len() - j,
    {
        let s = Statement::parser(ts, j);
        match s.res {
            Some((x, k)) => {
                proof {
                    let rest = parse_statements_after(tv, k as int, merge(far_view(far), far_view(s.far)));
                    assert(parse_statements_after(tv, j as int, far_view(far)).0 == seq![x@] + rest.0);
                    assert(statements_view(acc@.push(x)) =~= statements_view(acc@).push(x@)) by {
                        assert(acc@.push(x).drop_last() =~= acc@);
                    }
                    assert(statements_view(acc@) + (seq![x@] + rest.0) =~= statements_view(
                        acc@,
                    ).push(x@) + rest.0);
                }
                acc.push(x);
                far = fmax(far, s.far);
                j = k;
            },
            None => {
                proof {
                    assert(statements_view(acc@) + Seq::<SpecStatement>::empty() =~= statements_view(acc@));
                }
                return (acc, j, fmax(far, s.far));
            },
        }
    }
}

/// Parses the spanned tokens of a script whose text is `src_len` bytes long.
pub fn parse(tokens: &Vec<(Token, Span)>, src_len: usize) -> (r: Result<Module, ParseError>)
    ensures
        match r {
            Ok(m) => parse_module(tokens_view(tokens@), Span { start: src_len, end: src_len })
                == Ok::<SpecModule, SpecParseError>(m@),
            Err(e) => parse_module(tokens_view(tokens@), Span { start: src_len, end: src_len })
                == Err::<SpecModule, SpecParseError>(e@),
        },
{
    let eof = Span { start: src_len, end: src_len };
    let (ast, j, far) = statements_at(tokens, 0);
    if j == tokens.len() {
        let span = if tokens.len() > 0 {
            span_of_tokens(tokens, 0, tokens.len())
        } else {
            eof
        };
        let m = Module { ast, span };
        proof {
            let tv = tokens_view(tokens@);
            assert(tv.len() == tokens@.len());
            assert(parse_statements(tv, 0).1 == tv.len());
            assert(m@ == SpecModule {
                ast: parse_statements(tv, 0).0,
                span: if tv.len() > 0 {
                    span_over(tv, 0, tv.len() as int)
                } else {
                    eof
                },
            });
            assert(parse_module(tv, eof) == Ok::<SpecModule, SpecParseError>(m@));
        }
        Ok(m)
    } else {
        let f = match fmax(far, stop_at(j, Expected::EndOfInput)) {
            Some(f) => f,
            None => Furthest { at: j, expected: Vec::new() },
        };
        if f.at < tokens.len() {
            Err(ParseError { span: tokens[f.at].1, found: Some(tokens[f.at].0.clone()), expected: f.expected })
        } else {
            Err(ParseError { span: eof, found: None, expected: f.expected })
        }
    }
}

} // verus!
