use chumsky::error::RichPattern;
use chumsky::extra;
use chumsky::input::MapExtra;
use chumsky::prelude::{choice, just, recursive, Parser, Rich};
use chumsky::primitive::select;
use chumsky::IterParser;
use tesc_core::ast::{Block, Expression, ExpressionKind, Module, Statement, StatementKind};
use tesc_core::lexer::{lexer, Token};
use tesc_core::parser::{parse, Expected, ParseError};
use tesc_core::pipeline::{TescErr, TescErrKind};
use tesc_core::span::Span;

#[derive(Clone, Debug, PartialEq)]
enum Tok {
    Str(String),
    Keyword(String),
    Ident(String),
    OpenParen,
    CloseParen,
    OpenCurly,
    CloseCurly,
    Dot,
    Comma,
    Semicolon,
}

impl std::fmt::Display for Tok {
    fn fmt(&self, f: &mut std::fmt::Formatter<'_>) -> std::fmt::Result {
        match self {
            Tok::Str(s) => f.write_str(&format!("\"{s}\"")),
            Tok::Keyword(k) => f.write_str(&format!("keyword `{k}`")),
            Tok::Ident(i) => f.write_str(&format!("ident `{i}`")),
            Tok::OpenParen => f.write_str(&format!("(")),
            Tok::CloseParen => f.write_str(&format!(")")),
            Tok::OpenCurly => f.write_str(&format!("{{")),
            Tok::CloseCurly => f.write_str(&format!("}}")),
            Tok::Dot => f.write_str(&format!(".")),
            Tok::Comma => f.write_str(&format!(",")),
            Tok::Semicolon => f.write_str(&format!(";")),
        }
    }
}

fn to_tok(t: &Token) -> Tok {
    match t {
        Token::String(s) => Tok::Str(s.clone()),
        Token::Keyword(s) => Tok::Keyword(s.clone()),
        Token::Ident(s) => Tok::Ident(s.clone()),
        Token::OpenParen => Tok::OpenParen,
        Token::CloseParen => Tok::CloseParen,
        Token::OpenCurly => Tok::OpenCurly,
        Token::CloseCurly => Tok::CloseCurly,
        Token::Dot => Tok::Dot,
        Token::Comma => Tok::Comma,
        Token::Semicolon => Tok::Semicolon,
    }
}

fn reference_parser<'a>() -> impl Parser<'a, &'a [Tok], Vec<String>, extra::Err<Rich<'a, Tok>>> {
    let ident = select(|t: Tok, e: &mut MapExtra<'a, '_, &'a [Tok], extra::Err<Rich<'a, Tok>>>| match t {
        Tok::Ident(s) => Some((s, e.span())),
        _ => None,
    });
    let stmt = recursive(|stmt| {
        let expr = recursive(|expr| {
            let string = select(|t: Tok, e: &mut MapExtra<'a, '_, &'a [Tok], extra::Err<Rich<'a, Tok>>>| match t {
                Tok::Str(s) => Some(format!("str({})@{}", s, e.span())),
                _ => None,
            });
            let id = ident
                .clone()
                .map(|(s, sp): (String, chumsky::span::SimpleSpan)| format!("id({})@{}", s, sp));
            let block = just(Tok::OpenCurly)
                .ignore_then(stmt.clone().repeated().collect::<Vec<String>>())
                .then(expr.clone().or_not())
                .then_ignore(just(Tok::CloseCurly))
                .map_with(|(body, tail): (Vec<String>, Option<String>), e| {
                    format!(
                        "block[{};{}]@{}",
                        body.join(","),
                        tail.unwrap_or_default(),
                        e.span()
                    )
                });
            let base = choice((string, id, block));
            let method_call = base.clone().foldl_with(
                ident.clone().then(base.clone()).repeated().at_least(1),
                |recv, ((m, msp), arg), e| {
                    format!("call({},id({})@{},{})@{}", recv, m, msp, arg, e.span())
                },
            );
            choice((method_call, base))
        });
        let test = just(Tok::Keyword("test".to_string()))
            .ignore_then(ident.clone())
            .then_ignore(just(Tok::OpenParen))
            .then(expr.clone())
            .then_ignore(just(Tok::CloseParen).ignored())
            .then(stmt.clone())
            .map_with(|(((name, nsp), cmd), body), e| {
                format!("test(id({})@{},{},{})@{}", name, nsp, cmd, body, e.span())
            });
        let expression = expr
            .then_ignore(just(Tok::Semicolon))
            .map_with(|x, e| format!("expr({})@{}", x, e.span()));
        choice((test, expression))
    });
    stmt.repeated().collect::<Vec<String>>()
}

fn to_expected(p: &RichPattern<'_, Tok>) -> Expected {
    match p {
        RichPattern::Token(t) => match &**t {
            Tok::Keyword(k) if k == "test" => Expected::TestKeyword,
            Tok::OpenParen => Expected::OpenParen,
            Tok::CloseParen => Expected::CloseParen,
            Tok::OpenCurly => Expected::OpenCurly,
            Tok::CloseCurly => Expected::CloseCurly,
            Tok::Semicolon => Expected::Semicolon,
            other => panic!("unexpected token pattern {:?}", other),
        },
        RichPattern::SomethingElse => Expected::SomethingElse,
        RichPattern::EndOfInput => Expected::EndOfInput,
        other => panic!("unexpected pattern {:?}", other),
    }
}

fn sp(s: Span) -> String {
    format!("{}..{}", s.start, s.end)
}

fn render_expression(e: &Expression) -> String {
    match &e.kind {
        ExpressionKind::StringLiteral(s) => format!("str({})@{}", s.string, sp(e.span)),
        ExpressionKind::Ident(i) => format!("id({})@{}", i.ident, sp(e.span)),
        ExpressionKind::Block(b) => render_block(b, e.span),
        ExpressionKind::MethodCall(m) => format!(
            "call({},id({})@{},{})@{}",
            render_expression(&m.receiver),
            m.method.ident,
            sp(m.method.span),
            render_expression(&m.argument),
            sp(e.span)
        ),
    }
}

fn render_block(b: &Block, span: Span) -> String {
    let body: Vec<String> = b.body.iter().map(render_statement).collect();
    let tail = b.tail.as_ref().map(render_expression).unwrap_or_default();
    format!("block[{};{}]@{}", body.join(","), tail, sp(span))
}

fn render_statement(s: &Statement) -> String {
    match &s.kind {
        StatementKind::Test(t) => format!(
            "test(id({})@{},{},{})@{}",
            t.name.ident,
            sp(t.name.span),
            render_expression(&t.command),
            render_statement(&t.body),
            sp(s.span)
        ),
        StatementKind::Expression(e) => format!("expr({})@{}", render_expression(e), sp(s.span)),
    }
}

fn render_module(m: &Module) -> Vec<String> {
    m.ast.iter().map(render_statement).collect()
}

fn compare(src: &str) {
    let lexed = lexer(src).tokens.expect("the source lexes");
    let tokens: Vec<Token> = lexed.into_iter().map(|(t, _)| t).collect();
    compare_tokens(src, &tokens);
}

fn compare_tokens(src: &str, tokens: &[Token]) {
    let n = tokens.len();
    let indexed: Vec<(Token, Span)> = tokens
        .iter()
        .enumerate()
        .map(|(i, t)| (t.clone(), Span { start: i, end: i + 1 }))
        .collect();
    let toks: Vec<Tok> = tokens.iter().map(to_tok).collect();
    let (reference, errs) = reference_parser().parse(toks.as_slice()).into_output_errors();
    let mine = parse(&indexed, n);
    match (&mine, &reference) {
        (Ok(m), Some(r)) => {
            assert_eq!(&render_module(m), r, "tree of {:?}", src);
            assert!(errs.is_empty());
        }
        (Err(e), None) => {
            assert_eq!(errs.len(), 1, "errors of {:?}: {:?}", src, errs);
            let re = &errs[0];
            assert_eq!((e.span.start, e.span.end), (re.span().start, re.span().end), "error span of {:?}: {:?} vs {:?}", src, e, re);
            assert_eq!(e.found.as_ref().map(to_tok), re.found().cloned(), "error token of {:?}", src);
            let theirs: Vec<Expected> = re.expected().map(to_expected).collect();
            assert_eq!(e.expected, theirs, "expected of {:?}", src);
            let report = TescErr {
                span: e.span,
                kind: TescErrKind::Parse(ParseError {
                    span: e.span,
                    found: e.found.clone(),
                    expected: e.expected.clone(),
                }),
            };
            assert_eq!(report.reason(), format!("{}", re), "message of {:?}", src);
        }
        _ => panic!("outcomes differ for {:?}: {:?} vs {:?} {:?}", src, mine.as_ref().map(render_module), reference, errs),
    }
}

#[test]
fn parser_agrees_with_combinators() {
    let cases = [
        "",
        "a;",
        "a",
        "a b;",
        "a b c;",
        "a b c d;",
        "self send \"x\" expect \"y\";",
        "test t(\"cmd\") { self send \"1\"; self expect \"2\"; };",
        "test t(\"cmd\") self send \"1\";",
        "test t(\"cmd\") { self send \"1\"; self expect \"2\" };",
        "test t(\"cmd\") { };",
        "test t(\"cmd\") {}",
        "{ a; b }",
        "{ a; b };",
        "{ { { a } } };",
        "{ a b { c } };",
        "test t(",
        "test t(x",
        "test t(x)",
        "test (x) y;",
        "test t x;",
        "( a );",
        "a ; ;",
        "a . b;",
        "test t(\"a\" b \"c\") { x y \"z\"; };",
        "x { a; } { b; };",
        "{ test u(\"q\") { self send \"w\"; }; } ;",
        "a b { c; d } e;",
        "\"s\";",
        "\"s\" t;",
        "{ a ; b c d }",
        ";",
        "{",
        "}",
        "test",
        "test a",
        "test a(",
        "test a(\"p\", \"q\") x;",
        "test a(\"p\") { self send \"1\"; }",
        "test a(\"p\") { self send \"1\" . };",
        "a b \"c\" d;",
        "{ test t(\"x\") ; }",
    ];
    for c in cases.iter() {
        compare(c);
    }
}

#[test]
fn parser_agrees_on_all_short_token_sequences() {
    let alphabet = [
        Token::Keyword("test".to_string()),
        Token::Ident("a".to_string()),
        Token::String("s".to_string()),
        Token::OpenParen,
        Token::CloseParen,
        Token::OpenCurly,
        Token::CloseCurly,
        Token::Semicolon,
        Token::Dot,
    ];
    let k = alphabet.len();
    for len in 0..=5usize {
        let total = k.pow(len as u32);
        for code in 0..total {
            let mut c = code;
            let mut tokens = Vec::new();
            for _ in 0..len {
                tokens.push(alphabet[c % k].clone());
                c /= k;
            }
            let label = format!("{:?}", tokens);
            compare_tokens(&label, &tokens);
        }
    }
}
