use tesc_core::error::{RunTimeErr, RunTimeErrKind, TypeCheckErr, TypeCheckErrKind};
use tesc_core::lexer::{lex_expected_message, lexer, LexError, LexExpected, Token};
use tesc_core::message::list_message;
use tesc_core::parser::{expected_message, Expected, ParseError};
use tesc_core::pipeline::{prepare, sort_errors, TescErr, TescErrKind};
use tesc_core::span::Span;
use tesc_core::test_error::TestError;
use tesc_core::types::Type;
use tesc_core::TescArgs;

fn args() -> TescArgs {
    TescArgs { path: String::from("script.tesc") }
}

fn sp(start: usize, end: usize) -> Span {
    Span { start, end }
}

fn undefined(name: &str, span: Span) -> TypeCheckErr {
    TypeCheckErr { kind: TypeCheckErrKind::UndefinedIdentifier(name.to_string()), span }
}

fn mismatch(actual: &str, expected: &str, span: Span) -> RunTimeErr {
    RunTimeErr {
        kind: RunTimeErrKind::OutputMissmatch { actual: actual.to_string(), expected: expected.to_string() },
        span,
    }
}

fn names(e: &TypeCheckErr) -> Vec<String> {
    match &e.kind {
        TypeCheckErrKind::Multiple(errs) => errs
            .iter()
            .map(|e| match &e.kind {
                TypeCheckErrKind::UndefinedIdentifier(i) => i.clone(),
                TypeCheckErrKind::Multiple(_) => "*".to_string(),
                _ => "?".to_string(),
            })
            .collect(),
        _ => vec![],
    }
}

#[test]
fn flatten_keeps_a_single_error() {
    let e = undefined("a", sp(1, 2)).flatten();
    assert_eq!(e.span, sp(1, 2));
    assert!(matches!(e.kind, TypeCheckErrKind::UndefinedIdentifier(ref i) if i == "a"));
    let r = mismatch("x\n", "y", sp(3, 4)).flatten();
    assert_eq!(r.span, sp(3, 4));
    assert!(matches!(r.kind, RunTimeErrKind::OutputMissmatch { .. }));
}

#[test]
fn flatten_lifts_the_errors_of_nested_multiples() {
    let inner = TypeCheckErr {
        kind: TypeCheckErrKind::Multiple(vec![undefined("b", sp(2, 3)), undefined("c", sp(4, 5))]),
        span: sp(2, 5),
    };
    let e = TypeCheckErr { kind: TypeCheckErrKind::Multiple(vec![undefined("a", sp(0, 1)), inner]), span: sp(0, 9) };
    let f = e.flatten();
    assert_eq!(f.span, sp(0, 9));
    assert_eq!(names(&f), vec!["a", "b", "c"]);
}

#[test]
fn flatten_goes_one_level_into_each_nested_multiple() {
    // Multiple[Multiple[Multiple[a]]]: the middle level gives way to its errors, each
    // flattened, so one Multiple stays.
    let deep = TypeCheckErr { kind: TypeCheckErrKind::Multiple(vec![undefined("a", sp(0, 1))]), span: sp(0, 1) };
    let mid = TypeCheckErr { kind: TypeCheckErrKind::Multiple(vec![deep]), span: sp(0, 1) };
    let top = TypeCheckErr { kind: TypeCheckErrKind::Multiple(vec![mid]), span: sp(0, 1) };
    let f = top.flatten();
    assert_eq!(names(&f), vec!["*"]);
    let r = RunTimeErr {
        kind: RunTimeErrKind::Multiple(vec![
            mismatch("1", "2", sp(0, 1)),
            RunTimeErr { kind: RunTimeErrKind::Multiple(vec![mismatch("3", "4", sp(5, 6))]), span: sp(5, 6) },
        ]),
        span: sp(0, 0),
    }
    .flatten();
    match r.kind {
        RunTimeErrKind::Multiple(errs) => {
            assert_eq!(errs.len(), 2);
            assert!(errs.iter().all(|e| matches!(e.kind, RunTimeErrKind::OutputMissmatch { .. })));
        }
        _ => panic!("not Multiple"),
    }
}

#[test]
fn reasons_of_type_errors() {
    assert_eq!(undefined("foo", sp(0, 3)).reason(), "undefined ident: `foo`");
    let m = TypeCheckErr { kind: TypeCheckErrKind::UndefinedMethod("shout".to_string()), span: sp(0, 1) };
    assert_eq!(m.reason(), "undefined method: `shout`");
    let t = TypeCheckErr {
        kind: TypeCheckErrKind::TypeMissmatch { actual: Type::Void, expected: Type::Reference(Box::new(Type::String)) },
        span: sp(0, 1),
    };
    assert_eq!(t.reason(), "expected: `&String`, actual: `()`");
    assert_eq!(mismatch("3\n", "2", sp(0, 1)).reason(), "expected: `2`, actual: `3\n`");
}

#[test]
fn reasons_of_lex_and_parse_errors() {
    let lex = TescErr {
        span: sp(4, 5),
        kind: TescErrKind::Lex(LexError {
            span: sp(4, 5),
            found: Some(']'),
            expected: vec![LexExpected::SomethingElse, LexExpected::Char('/'), LexExpected::Keyword],
        }),
    };
    assert_eq!(lex.reason(), "found ']' expected something else, '/', or '\"test\"'");
    let eof = TescErr {
        span: sp(9, 9),
        kind: TescErrKind::Lex(LexError { span: sp(9, 9), found: None, expected: vec![LexExpected::Any] }),
    };
    assert_eq!(eof.reason(), "found end of input expected any");
    let parse = TescErr {
        span: sp(0, 1),
        kind: TescErrKind::Parse(ParseError {
            span: sp(0, 1),
            found: Some(Token::CloseCurly),
            expected: vec![Expected::SomethingElse, Expected::Semicolon],
        }),
    };
    assert_eq!(parse.reason(), "found '}' expected something else, or ';'");
    let parse_ident = TescErr {
        span: sp(0, 1),
        kind: TescErrKind::Parse(ParseError {
            span: sp(0, 1),
            found: Some(Token::Ident("x".to_string())),
            expected: vec![Expected::CloseParen],
        }),
    };
    assert_eq!(parse_ident.reason(), "found 'ident `x`' expected ')'");
    let none = TescErr {
        span: sp(0, 1),
        kind: TescErrKind::Parse(ParseError { span: sp(0, 1), found: None, expected: vec![] }),
    };
    assert_eq!(none.reason(), "found end of input expected something else");
    let three = TescErr {
        span: sp(0, 1),
        kind: TescErrKind::Parse(ParseError {
            span: sp(0, 1),
            found: Some(Token::Semicolon),
            expected: vec![Expected::TestKeyword, Expected::SomethingElse, Expected::OpenCurly, Expected::EndOfInput],
        }),
    };
    assert_eq!(three.reason(), "found ';' expected 'keyword `test`', something else, '{', or end of input");
}

#[test]
fn token_texts() {
    assert_eq!(Token::String("a b".to_string()).to_text(), "\"a b\"");
    assert_eq!(Token::Keyword("test".to_string()).to_text(), "keyword `test`");
    assert_eq!(Token::Ident("self".to_string()).to_text(), "ident `self`");
    let puncts = [
        (Token::OpenParen, "("),
        (Token::CloseParen, ")"),
        (Token::OpenCurly, "{"),
        (Token::CloseCurly, "}"),
        (Token::Dot, "."),
        (Token::Comma, ","),
        (Token::Semicolon, ";"),
    ];
    for (t, s) in puncts.iter() {
        assert_eq!(t.to_text(), *s);
    }
}

#[test]
fn a_missing_semicolon_is_a_parse_error_at_the_end() {
    let src = "test a(\"p\") { self send \"1\"; }";
    let p = prepare(&args(), src);
    assert!(p.module.is_none());
    assert_eq!(p.errors.len(), 1);
    assert_eq!(p.errors[0].span, sp(src.len(), src.len()));
    assert!(matches!(&p.errors[0].kind, TescErrKind::Parse(e) if e.found.is_none()));
    assert_eq!(p.errors[0].reason(), "found end of input expected something else, or ';'");
}

#[test]
fn a_stray_token_is_a_parse_error_at_that_token() {
    let src = "test a(\"p\") { self send \"1\" . };";
    let p = prepare(&args(), src);
    assert!(p.module.is_none());
    assert_eq!(p.errors.len(), 1);
    let dot = src.find('.').unwrap();
    assert_eq!(p.errors[0].span, sp(dot, dot + 1));
    assert_eq!(p.errors[0].reason(), "found '.' expected something else, ';', or '}'");
}

#[test]
fn a_character_that_starts_no_token_is_a_lex_error() {
    let src = "test a(\"p\") { self send \"1\"; } ;\n[";
    let p = prepare(&args(), src);
    let at = src.find('[').unwrap();
    assert!(p.errors.iter().any(|e| matches!(&e.kind, TescErrKind::Lex(l) if l.found == Some('[') && l.span == sp(at, at + 1))));
}

#[test]
fn an_unclosed_string_is_a_lex_error_at_the_newline() {
    let out = lexer("\"abc\nx");
    assert_eq!(out.errors.len(), 1);
    assert_eq!(out.errors[0].span, sp(4, 5));
    assert_eq!(out.errors[0].found, Some('\n'));
}

#[test]
fn sorting_orders_by_span_and_keeps_ties_in_order() {
    let mk = |s: usize, e: usize, name: &str| TescErr { span: sp(s, e), kind: TescErrKind::TypeCheck(undefined(name, sp(s, e))) };
    let errs = vec![mk(5, 6, "a"), mk(1, 9, "b"), mk(5, 6, "c"), mk(1, 2, "d"), mk(0, 0, "e")];
    let sorted = sort_errors(errs);
    let got: Vec<(usize, usize, String)> = sorted
        .iter()
        .map(|e| match &e.kind {
            TescErrKind::TypeCheck(t) => (e.span.start, e.span.end, t.reason()),
            _ => unreachable!(),
        })
        .collect();
    let want: Vec<(usize, usize, String)> = vec![
        (0, 0, "undefined ident: `e`".to_string()),
        (1, 2, "undefined ident: `d`".to_string()),
        (1, 9, "undefined ident: `b`".to_string()),
        (5, 6, "undefined ident: `a`".to_string()),
        (5, 6, "undefined ident: `c`".to_string()),
    ];
    assert_eq!(got, want);
}

#[test]
fn test_error_reports() {
    let m = TestError::OutputMissmatch { actual: "3".to_string(), expected: "2".to_string() };
    assert_eq!(m.to_text(), "Test failed: Output missmatch\nRecieved `3`\nExpected `2`\n");
    let u = TestError::UndefinedIdentifier("x".to_string());
    assert_eq!(u.to_text(), "x\n");
    let all = TestError::Multiple(vec![u, m]);
    assert_eq!(all.to_text(), "x\n\nTest failed: Output missmatch\nRecieved `3`\nExpected `2`\n\n");
    assert_eq!(TestError::Multiple(vec![]).to_text(), "");
}

#[test]
fn token_spans_come_in_order_within_the_text() {
    let src = "test é(\"ü\") { // ß\n self send \"x\"; };";
    let toks = lexer(src).tokens.unwrap();
    for (i, (_, s)) in toks.iter().enumerate() {
        assert!(s.start < s.end && s.end <= src.len());
        if i + 1 < toks.len() {
            assert!(s.end <= toks[i + 1].1.start);
        }
    }
}

#[test]
fn test_is_a_keyword_only_when_no_identifier_character_follows() {
    let toks = lexer("test testé tests test(").tokens.unwrap();
    assert!(matches!(&toks[0].0, Token::Keyword(k) if k == "test"));
    assert!(matches!(&toks[1].0, Token::Ident(k) if k == "testé"));
    assert!(matches!(&toks[2].0, Token::Ident(k) if k == "tests"));
    assert!(matches!(&toks[3].0, Token::Keyword(k) if k == "test"));
    assert!(matches!(&toks[4].0, Token::OpenParen));
}

#[test]
fn a_test_takes_exactly_one_argument() {
    let src = "test a(\"p\", \"q\") self send \"1\";";
    let p = prepare(&args(), src);
    assert!(p.module.is_none());
    assert_eq!(p.errors.len(), 1);
    let comma = src.find(',').unwrap();
    assert_eq!(p.errors[0].span, sp(comma, comma + 1));
    assert_eq!(p.errors[0].reason(), "found ',' expected something else, or ')'");
}

#[test]
fn lists_of_expectations() {
    assert_eq!(list_message(&vec![]), "something else");
    assert_eq!(list_message(&vec!["a".to_string()]), "a");
    assert_eq!(list_message(&vec!["a".to_string(), "b".to_string()]), "a, or b");
    assert_eq!(list_message(&vec!["a".to_string(), "b".to_string(), "c".to_string()]), "a, b, or c");
    assert_eq!(LexExpected::Char('(').to_text(), "'('");
    assert_eq!(LexExpected::Keyword.to_text(), "'\"test\"'");
    assert_eq!(LexExpected::Any.to_text(), "any");
    assert_eq!(lex_expected_message(&vec![LexExpected::SomethingElse, LexExpected::EndOfInput]), "something else, or end of input");
    assert_eq!(Expected::TestKeyword.to_text(), "'keyword `test`'");
    assert_eq!(expected_message(&vec![Expected::OpenParen]), "'('");
}

#[test]
fn lex_errors_name_what_was_expected() {
    let out = lexer("a ]");
    assert_eq!(out.errors.len(), 1);
    assert_eq!(
        out.errors[0].expected,
        vec![
            LexExpected::Char('/'),
            LexExpected::Char('"'),
            LexExpected::Keyword,
            LexExpected::SomethingElse,
            LexExpected::Char('('),
            LexExpected::Char(')'),
            LexExpected::Char('{'),
            LexExpected::Char('}'),
            LexExpected::Char('.'),
            LexExpected::Char(','),
            LexExpected::Char(';'),
            LexExpected::EndOfInput,
        ]
    );
    let out = lexer("a]");
    assert_eq!(out.errors[0].expected[0], LexExpected::SomethingElse);
    let out = lexer("/]");
    assert_eq!(&out.errors[0].expected[0..2], &[LexExpected::Char('/'), LexExpected::SomethingElse]);
    let out = lexer("\"ab");
    assert_eq!(out.errors[0].expected, vec![LexExpected::SomethingElse, LexExpected::Char('\\'), LexExpected::Char('"')]);
    let out = lexer("\"ab\\");
    assert_eq!(out.errors[0].expected, vec![LexExpected::Any]);
}
