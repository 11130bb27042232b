use chumsky::extra;
use chumsky::prelude::{
    any, choice, end, just, none_of, skip_then_retry_until, text, Parser, Rich, SimpleSpan,
};
use chumsky::IterParser;
use chumsky::error::RichPattern;
use tesc_core::lexer::{lexer, LexError, LexExpected, Token};
use tesc_core::pipeline::{TescErr, TescErrKind};

#[derive(Clone, Debug, PartialEq)]
enum Tok<'src> {
    Str(&'src str),
    Keyword(&'src str),
    Ident(&'src str),
    OpenParen,
    CloseParen,
    OpenCurly,
    CloseCurly,
    Dot,
    Comma,
    Semicolon,
}

fn reference_lexer<'src>(
) -> impl Parser<'src, &'src str, Vec<(Tok<'src>, SimpleSpan)>, extra::Err<Rich<'src, char, SimpleSpan>>>
{
    let comment = just("//")
        .then(any().and_is(just('\n').not()).repeated())
        .padded();
    let string = choice((none_of("\\\"\n"), just("\\").ignore_then(any())))
        .repeated()
        .to_slice()
        .map(|s: &str| Tok::Str(s))
        .delimited_by(just('"').ignored(), just('"').ignored());
    let ident = any()
        .filter(|c: &char| {
            !c.is_ascii_digit()
                && !c.is_whitespace()
                && !matches!(c, '(' | ')' | '[' | ']' | '{' | '}' | '"' | '.' | ',' | ';')
        })
        .then(
            any()
                .filter(|c: &char| {
                    !c.is_whitespace()
                        && !matches!(c, '(' | ')' | '[' | ']' | '{' | '}' | '"' | '.' | ',' | ';')
                })
                .repeated(),
        )
        .to_slice()
        .map(|s: &str| Tok::Ident(s));
    let keyword = text::keyword("test").map(|s: &str| Tok::Keyword(s));
    let open_paren = just('(').ignored().map(|()| Tok::OpenParen);
    let close_paren = just(')').ignored().map(|()| Tok::CloseParen);
    let open_curly = just('{').ignored().map(|()| Tok::OpenCurly);
    let close_curly = just('}').ignored().map(|()| Tok::CloseCurly);
    let dot = just('.').ignored().map(|()| Tok::Dot);
    let comma = just(',').ignored().map(|()| Tok::Comma);
    let semicolon = just(';').ignored().map(|()| Tok::Semicolon);
    choice((
        string,
        keyword,
        ident,
        open_paren,
        close_paren,
        open_curly,
        close_curly,
        dot,
        comma,
        semicolon,
    ))
    .map_with(|tok, e| (tok, e.span()))
    .padded_by(comment.repeated())
    .padded()
    .recover_with(skip_then_retry_until(any().ignored(), end()))
    .repeated()
    .collect()
}

fn same_token(a: &Token, b: &Tok) -> bool {
    match (a, b) {
        (Token::String(x), Tok::Str(y)) => x == y,
        (Token::Keyword(x), Tok::Keyword(y)) => x == y,
        (Token::Ident(x), Tok::Ident(y)) => x == y,
        (Token::OpenParen, Tok::OpenParen)
        | (Token::CloseParen, Tok::CloseParen)
        | (Token::OpenCurly, Tok::OpenCurly)
        | (Token::CloseCurly, Tok::CloseCurly)
        | (Token::Dot, Tok::Dot)
        | (Token::Comma, Tok::Comma)
        | (Token::Semicolon, Tok::Semicolon) => true,
        _ => false,
    }
}

fn compare(src: &str) {
    let (ref_tokens, ref_errs) = reference_lexer().parse(src).into_output_errors();
    let out = lexer(src);
    match (&out.tokens, &ref_tokens) {
        (None, None) => {}
        (Some(a), Some(b)) => {
            assert_eq!(a.len(), b.len(), "token count of {:?}: {:?} vs {:?}", src, a, b);
            for (x, y) in a.iter().zip(b.iter()) {
                assert!(same_token(&x.0, &y.0), "token of {:?}: {:?} vs {:?}", src, x, y);
                assert_eq!((x.1.start, x.1.end), (y.1.start, y.1.end), "span in {:?}", src);
            }
        }
        _ => panic!("output presence differs for {:?}: {:?} vs {:?}", src, out.tokens, ref_tokens),
    }
    assert_eq!(out.errors.len(), ref_errs.len(), "error count of {:?}: {:?} vs {:?}", src, out.errors, ref_errs);
    for (x, y) in out.errors.iter().zip(ref_errs.iter()) {
        assert_eq!((x.span.start, x.span.end), (y.span().start, y.span().end), "error span in {:?}: {:?} vs {:?}", src, x, y);
        assert_eq!(x.found, y.found().copied(), "error found in {:?}", src);
        let theirs: Vec<LexExpected> = y.expected().map(to_expected).collect();
        assert_eq!(x.expected, theirs, "expected in {:?}", src);
        let report = TescErr {
            span: x.span,
            kind: TescErrKind::Lex(LexError { span: x.span, found: x.found, expected: x.expected.clone() }),
        };
        assert_eq!(report.reason(), format!("{}", y), "message in {:?}", src);
    }
}

fn to_expected(p: &RichPattern<'_, char>) -> LexExpected {
    match p {
        RichPattern::Token(c) => LexExpected::Char(**c),
        RichPattern::Identifier(i) if i == "\"test\"" => LexExpected::Keyword,
        RichPattern::Any => LexExpected::Any,
        RichPattern::SomethingElse => LexExpected::SomethingElse,
        RichPattern::EndOfInput => LexExpected::EndOfInput,
        other => panic!("unexpected pattern {:?}", other),
    }
}

#[test]
fn lexer_agrees_with_combinators() {
    let cases = [
        "",
        " ",
        "// only a comment",
        "a",
        "abc   ",
        "  abc",
        "test",
        "testing",
        "test(",
        "test-x",
        "testé x",
        "test_1",
        "test add(\"python3 calculator.py\") {\n self send \"1 + 1\"; // x\n self expect \"2\";\n};",
        "\"a\\\"b\" c",
        "\"unterminated",
        "\"a\nb\" c",
        "\"a\\",
        "1 abc",
        "abc 1",
        "abc 1 x",
        "  1 a",
        "1// ab",
        "a//b c",
        "/ x",
        "[x]",
        "x[y]z",
        "{}();.,",
        "héllo wörld",
        "a\u{00A0}b",
        "a\u{2003}b 12 c",
        "\"é\" ü ; 9",
        "a ; // c\n // d\n b",
        "99",
        "9 9 a",
        "x \"\" y",
        "\"\\n\\t\" z",
        "[",
        "]",
        "] x",
        "]]",
        "] ]",
        "]a]",
        "a 1",
        "a 1 b",
        "a ]",
        "a ] b",
        " 1 b",
        "test ]",
        "test]",
        "test[",
        "tes]",
        "a]",
        "a1]",
        "a [ ] b",
        "a ]]b",
        "x]y]",
        "(1",
        "( 1",
        "\"x\"1",
        "\"x\"]",
        "a //c\n]",
        "x // c\n 9",
        "x\t\n]",
        "/]",
        "x /]",
        "/a]",
        "a/]",
        "a//]",
        "(/]",
        "test/]",
        "é]",
        "€]",
        "_]",
        "1 2",
        "  ",
        "// x",
        "//x\n",
        " \n// y",
        "\"abc\nx",
        "\"abc",
        "\"a\\",
        "\"\\",
        "\"a\\\"",
        "\"a\\n",
        "x \"ab",
        "\"a\" \"b",
        "a\"b",
        "\"ab\\\\\"]",
    ];
    for c in cases.iter() {
        compare(c);
    }
}

#[test]
fn lexer_agrees_on_all_short_inputs() {
    let alphabet = ['a', '1', ' ', '/', '"', '\\', '\n', ']', '(', 't'];
    let k = alphabet.len();
    for len in 0..=4usize {
        let total = k.pow(len as u32);
        for code in 0..total {
            let mut c = code;
            let mut src = String::new();
            for _ in 0..len {
                src.push(alphabet[c % k]);
                c /= k;
            }
            compare(&src);
        }
    }
    for word in ["test", "tests", "test/", "test]", "test ", "test\"", "te/t", "t//x"] {
        for tail in ["", "]", " ]", "/]", "1", "\"", "\n]", "//", "a]"] {
            compare(&format!("{word}{tail}"));
            compare(&format!("{tail}{word}"));
        }
    }
}
