use tesc_core::lexer::{lexer, Token};
use tesc_core::span::Span;


#[test]
fn lexes_readme_example() {
    let src = "test add(\"python3 calculator.py\") {\n    self send \"1 + 1\"; // Inputs\n    self expect \"2\";\n};\n";
    let out = lexer(src);
    assert!(out.errors.is_empty());
    let toks = out.tokens.unwrap();
    assert_eq!(toks.len(), 16);
    assert!(matches!(&toks[0].0, Token::Keyword(k) if k == "test"));
    assert_eq!(toks[0].1, Span { start: 0, end: 4 });
    assert!(matches!(&toks[1].0, Token::Ident(k) if k == "add"));
    assert!(matches!(&toks[3].0, Token::String(k) if k == "python3 calculator.py"));
}

#[test]
fn identifier_characters_in_ascii_are_letters_digits_and_underscore() {
    let toks = lexer("tested a_1Z test(").tokens.unwrap();
    assert_eq!(toks.len(), 4);
    assert!(matches!(&toks[0].0, Token::Ident(k) if k == "tested"));
    assert!(matches!(&toks[1].0, Token::Ident(k) if k == "a_1Z"));
    assert!(matches!(&toks[2].0, Token::Keyword(k) if k == "test"));
    assert!(matches!(&toks[3].0, Token::OpenParen));
}
