use tesc_core::environment::{RunTimeEnv, TypeCheckEnv};
use tesc_core::error::{expect, TypeCheckErr, TypeCheckErrKind};
use tesc_core::lexer::lexer;
use tesc_core::parser::parse;
use tesc_core::pipeline::{prepare, TescErrKind};
use tesc_core::span::Span;
use tesc_core::types::{Type, Value};
use tesc_core::TescArgs;

fn args() -> TescArgs {
    TescArgs { path: String::from("script.tesc") }
}

fn check_errors(src: &str) -> Vec<TypeCheckErr> {
    let toks = lexer(src).tokens.unwrap();
    let m = parse(&toks, src.len()).unwrap();
    let mut env = TypeCheckEnv::new();
    match m.check(&args(), &mut env) {
        Ok(t) => {
            assert!(t == Type::Void);
            vec![]
        }
        Err(TypeCheckErr { kind: TypeCheckErrKind::Multiple(errs), span }) => {
            assert_eq!(span, Span { start: 0, end: 0 });
            errs
        }
        Err(e) => panic!("not Multiple: {:?}", e),
    }
}

#[test]
fn readme_example_type_checks() {
    let src = "test add(\"python3 calculator.py\") {\n    self send \"1 + 1\";\n    self expect \"2\";\n};\n";
    assert!(check_errors(src).is_empty());
}

#[test]
fn an_undefined_identifier_is_reported_at_its_span() {
    let src = "test a(\"p\") { other send \"1\"; };";
    let errs = check_errors(src);
    assert_eq!(errs.len(), 1);
    let at = src.find("other").unwrap();
    assert_eq!(errs[0].span, Span { start: at, end: at + 5 });
    assert!(matches!(&errs[0].kind, TypeCheckErrKind::UndefinedIdentifier(i) if i == "other"));
    assert_eq!(errs[0].reason(), "undefined ident: `other`");
}

#[test]
fn a_receiver_that_is_not_a_process_is_a_mismatch() {
    let src = "test a(\"p\") \"x\" send \"1\";";
    let errs = check_errors(src);
    assert_eq!(errs.len(), 1);
    assert!(matches!(&errs[0].kind, TypeCheckErrKind::TypeMissmatch { actual: Type::String, expected: Type::Reference(b) } if **b == Type::Process));
    assert_eq!(errs[0].reason(), "expected: `&Process`, actual: `String`");
}

#[test]
fn an_argument_that_is_not_a_string_is_a_mismatch() {
    let src = "test a(\"p\") self send self;";
    let errs = check_errors(src);
    assert_eq!(errs.len(), 1);
    let at = src.rfind("self").unwrap();
    assert_eq!(errs[0].span, Span { start: at, end: at + 4 });
    assert_eq!(errs[0].reason(), "expected: `String`, actual: `&Process`");
}

#[test]
fn a_command_that_is_not_a_string_is_a_mismatch() {
    let src = "test a({}) self send \"1\";";
    let errs = check_errors(src);
    assert_eq!(errs.len(), 1);
    assert_eq!(errs[0].reason(), "expected: `String`, actual: `()`");
}

#[test]
fn errors_of_nested_blocks_come_out_single() {
    let src = "test a(\"p\") { x send \"1\"; { y send \"2\"; { z send \"3\"; }; }; };\nw send \"4\";";
    let errs = check_errors(src);
    assert_eq!(errs.len(), 4);
    let names: Vec<String> = errs
        .iter()
        .map(|e| match &e.kind {
            TypeCheckErrKind::UndefinedIdentifier(i) => i.clone(),
            other => panic!("not single: {:?}", other),
        })
        .collect();
    assert_eq!(names, vec!["x", "y", "z", "w"]);
}

#[test]
fn self_is_bound_only_inside_its_test() {
    let src = "test a(\"p\") self send \"1\";\nself send \"2\";";
    let errs = check_errors(src);
    assert_eq!(errs.len(), 1);
    assert_eq!(errs[0].reason(), "undefined ident: `self`");
}

#[test]
fn type_errors_are_what_prepare_reports() {
    let p = prepare(&args(), "x send \"1\";\ny send \"2\";");
    assert!(p.module.is_none());
    assert_eq!(p.errors.len(), 2);
    assert!(matches!(&p.errors[0].kind, TescErrKind::TypeCheck(_)));
    assert_eq!(p.errors[0].span, Span { start: 0, end: 1 });
    assert_eq!(p.errors[1].span, Span { start: 12, end: 13 });
}

#[test]
fn expect_is_ok_exactly_on_equal_types() {
    let sp = Span { start: 3, end: 5 };
    assert!(expect(Type::String, Type::String, sp).is_ok());
    assert!(expect(Type::Reference(Box::new(Type::Process)), Type::Reference(Box::new(Type::Process)), sp).is_ok());
    match expect(Type::Process, Type::Void, sp) {
        Err(e) => {
            assert_eq!(e.span, sp);
            assert!(matches!(e.kind, TypeCheckErrKind::TypeMissmatch { actual: Type::Void, expected: Type::Process }));
        }
        Ok(()) => panic!("expected a mismatch"),
    }
}

#[test]
fn type_text_of_each_type() {
    assert_eq!(Type::String.to_text(), "String");
    assert_eq!(Type::Process.to_text(), "Process");
    assert_eq!(Type::Void.to_text(), "()");
    assert_eq!(Type::Reference(Box::new(Type::Reference(Box::new(Type::Process)))).to_text(), "&&Process");
}

#[test]
fn get_after_insert_gives_the_inserted_type() {
    let mut env = TypeCheckEnv::new();
    assert!(env.get(&"a".to_string()).is_none());
    env.push_frame();
    env.insert("a".to_string(), Type::String);
    assert!(env.get(&"a".to_string()) == Some(Type::String));
    env.push_frame();
    assert!(env.get(&"a".to_string()) == Some(Type::String));
    env.insert("a".to_string(), Type::Process);
    assert!(env.get(&"a".to_string()) == Some(Type::Process));
    assert!(env.get(&"b".to_string()).is_none());
    env.pop_frame();
    assert!(env.get(&"a".to_string()) == Some(Type::String));
    env.insert("a".to_string(), Type::Void);
    assert!(env.get(&"a".to_string()) == Some(Type::Void));
    env.pop_frame();
    assert!(env.get(&"a".to_string()).is_none());
}

#[test]
fn default_environments_are_empty() {
    let mut t = TypeCheckEnv::default();
    assert!(t.get(&"self".to_string()).is_none());
    let mut r = RunTimeEnv::default();
    assert!(r.get(&"self".to_string()).is_none());
}

#[test]
fn spawn_binds_a_process_in_the_innermost_frame() {
    let mut env = RunTimeEnv::new();
    env.push_frame();
    env.spawn("self".to_string(), 7);
    assert!(matches!(env.get(&"self".to_string()), Some(Value::Process(7))));
    env.push_frame();
    env.spawn("self".to_string(), 9);
    assert!(matches!(env.get(&"self".to_string()), Some(Value::Process(9))));
    env.pop_frame();
    assert!(matches!(env.get(&"self".to_string()), Some(Value::Process(7))));
}

#[test]
fn a_block_leaves_enclosing_frames_as_they_were() {
    for src in ["{ \"a\"; };", "{ other send \"1\"; };", "{ test a(\"p\") self send \"1\"; };"] {
        let toks = lexer(src).tokens.unwrap();
        let m = parse(&toks, src.len()).unwrap();
        let mut env = TypeCheckEnv::new();
        env.push_frame();
        env.insert(String::from("x"), Type::String);
        for stmt in &m.ast {
            let _ = stmt.check(&args(), &mut env);
        }
        assert!(env.get(&String::from("x")) == Some(Type::String));
        assert!(env.get(&String::from("self")).is_none());
    }
}

#[test]
fn pop_frame_undoes_push_frame_and_the_inserts_since() {
    let mut env = TypeCheckEnv::new();
    env.push_frame();
    env.insert(String::from("x"), Type::String);
    env.push_frame();
    env.insert(String::from("y"), Type::Void);
    env.insert(String::from("x"), Type::Process);
    assert!(env.get(&String::from("x")) == Some(Type::Process));
    env.pop_frame();
    assert!(env.get(&String::from("x")) == Some(Type::String));
    assert!(env.get(&String::from("y")).is_none());
}
