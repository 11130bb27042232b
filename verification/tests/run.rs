use tesc_core::ast::Module;
use tesc_core::error::RunTimeErrKind;
use tesc_core::eval::{run_tests, split_command, Action, Halt, Outcome, TestRun};
use tesc_core::lexer::lexer;
use tesc_core::parser::parse;
use tesc_core::pipeline::prepare;
use tesc_core::span::Span;
use tesc_core::TescArgs;

const README: &str = "test add(\"python3 calculator.py\") {\n    self send \"1 + 1\"; // Inputs 1 + 1 + '\\n' into the program\n    self expect \"2\";   // Expects the program to print 2 + '\\n'\n};\n";

fn args() -> TescArgs {
    TescArgs { path: String::from("script.tesc") }
}

fn module_of(src: &str) -> Module {
    let p = prepare(&args(), src);
    assert!(p.errors.is_empty(), "unexpected errors: {:?}", p.errors);
    p.module.unwrap()
}

fn run(src: &str, lines: &[&str]) -> TestRun {
    let m = module_of(src);
    run_tests(&m, &args(), lines.iter().map(|l| l.to_string()).collect())
}

fn is_print(a: &Action, text: &str) -> bool {
    matches!(a, Action::Print(s) if s == text)
}

fn is_spawn(a: &Action, p: usize, program: &str, argv: &[&str]) -> bool {
    match a {
        Action::Spawn { process, program: prog, args } => {
            *process == p && prog == program && args.iter().map(|s| s.as_str()).eq(argv.iter().copied())
        }
        _ => false,
    }
}

fn is_send(a: &Action, p: usize, text: &str) -> bool {
    matches!(a, Action::Send { process, text: t } if *process == p && t == text)
}

#[test]
fn readme_example_sends_then_waits_for_a_line() {
    let r = run(README, &[]);
    assert_eq!(r.actions.len(), 3);
    assert!(is_print(&r.actions[0], "Testing: add"));
    assert!(is_spawn(&r.actions[1], 1, "python3", &["calculator.py"]));
    assert!(is_send(&r.actions[2], 1, "1 + 1\n"));
    assert!(matches!(r.outcome, Outcome::NeedsLine(1)));
}

#[test]
fn readme_example_passes_on_the_expected_line() {
    let r = run(README, &["2\n"]);
    assert_eq!(r.actions.len(), 3);
    assert!(is_send(&r.actions[2], 1, "1 + 1\n"));
    assert!(matches!(r.outcome, Outcome::Passed));
}

#[test]
fn readme_example_fails_on_another_line() {
    let r = run(README, &["3\n"]);
    let expect_at = README.find("expect").unwrap();
    let arg_end = README.find("\"2\"").unwrap() + 3;
    match r.outcome {
        Outcome::Failed(e) => {
            assert_eq!(e.span, Span { start: 0, end: 0 });
            match e.kind {
                RunTimeErrKind::Multiple(errs) => {
                    assert_eq!(errs.len(), 1);
                    assert_eq!(errs[0].span, Span { start: expect_at, end: arg_end });
                    match &errs[0].kind {
                        RunTimeErrKind::OutputMissmatch { actual, expected } => {
                            assert_eq!(actual, "3\n");
                            assert_eq!(expected, "2");
                        }
                        _ => panic!("not a mismatch"),
                    }
                    assert_eq!(errs[0].reason(), "expected: `2`, actual: `3\n`");
                }
                _ => panic!("not Multiple"),
            }
        }
        other => panic!("unexpected outcome {:?}", other),
    }
}

#[test]
fn a_line_without_its_newline_fails_the_expectation() {
    let r = run(README, &["2"]);
    assert!(matches!(r.outcome, Outcome::Failed(_)));
}

#[test]
fn running_again_with_more_lines_extends_the_actions() {
    let src = "test t(\"prog a b\") { self expect \"x\"; self send \"y\"; self expect \"z\"; };";
    let first = run(src, &[]);
    assert!(matches!(first.outcome, Outcome::NeedsLine(1)));
    assert_eq!(first.actions.len(), 2);
    let second = run(src, &["x\n"]);
    assert!(matches!(second.outcome, Outcome::NeedsLine(1)));
    assert_eq!(second.actions.len(), 3);
    assert!(is_print(&second.actions[0], "Testing: t"));
    assert!(is_spawn(&second.actions[1], 1, "prog", &["a", "b"]));
    assert!(is_send(&second.actions[2], 1, "y\n"));
    let third = run(src, &["x\n", "z\n"]);
    assert!(matches!(third.outcome, Outcome::Passed));
    assert_eq!(third.actions.len(), 3);
    // a run that did not wait is the same with more lines
    let fourth = run(src, &["x\n", "z\n", "extra\n"]);
    assert!(matches!(fourth.outcome, Outcome::Passed));
    assert_eq!(fourth.actions.len(), 3);
}

#[test]
fn each_test_starts_its_own_process_named_by_its_action() {
    let src = "test a(\"one\") self send \"1\";\ntest b(\"two\") { self send \"2\"; };";
    let r = run(src, &[]);
    assert!(matches!(r.outcome, Outcome::Passed));
    assert_eq!(r.actions.len(), 6);
    assert!(is_print(&r.actions[0], "Testing: a"));
    assert!(is_spawn(&r.actions[1], 1, "one", &[]));
    assert!(is_send(&r.actions[2], 1, "1\n"));
    assert!(is_print(&r.actions[3], "Testing: b"));
    assert!(is_spawn(&r.actions[4], 4, "two", &[]));
    assert!(is_send(&r.actions[5], 4, "2\n"));
}

#[test]
fn failures_of_several_tests_are_all_reported() {
    let src = "test a(\"p\") self expect \"1\";\ntest b(\"q\") self expect \"2\";";
    let r = run(src, &["x\n", "y\n"]);
    match r.outcome {
        Outcome::Failed(e) => match e.kind {
            RunTimeErrKind::Multiple(errs) => {
                assert_eq!(errs.len(), 2);
                assert!(matches!(&errs[0].kind, RunTimeErrKind::OutputMissmatch { actual, expected } if actual == "x\n" && expected == "1"));
                assert!(matches!(&errs[1].kind, RunTimeErrKind::OutputMissmatch { actual, expected } if actual == "y\n" && expected == "2"));
            }
            _ => panic!("not Multiple"),
        },
        other => panic!("unexpected outcome {:?}", other),
    }
}

#[test]
fn a_failed_expectation_stops_its_block() {
    let src = "test a(\"p\") { self expect \"1\"; self send \"never\"; };";
    let r = run(src, &["0\n"]);
    assert!(matches!(r.outcome, Outcome::Failed(_)));
    assert_eq!(r.actions.len(), 2);
}

#[test]
fn an_unknown_method_is_a_type_error() {
    let p = prepare(&args(), "test a(\"p\") self shout \"1\";");
    assert_eq!(p.errors.len(), 1);
    assert_eq!(p.errors[0].reason(), "undefined method: `shout`");
    assert!(p.module.is_none());
}

#[test]
fn a_statement_outside_tests_that_names_nothing_is_refused() {
    let p = prepare(&args(), "self send \"1\";");
    assert_eq!(p.errors.len(), 1);
    assert_eq!(p.errors[0].reason(), "undefined ident: `self`");
    // a module that holds only a string statement passes with no action
    let r = run("\"hello\";", &[]);
    assert!(matches!(r.outcome, Outcome::Passed));
    assert!(r.actions.is_empty());
}

fn parsed(src: &str) -> Module {
    let toks = lexer(src).tokens.unwrap();
    parse(&toks, src.len()).unwrap()
}

#[test]
fn an_argument_that_fails_a_test_halts_the_run() {
    let src = "test a(\"p\") self send { self expect \"a\"; \"b\" };";
    let r = run(src, &["x\n"]);
    assert!(matches!(r.outcome, Outcome::Halted(Halt::ArgumentFailed)));
    // with the expected line, the block gives its string and the send goes out
    let r = run(src, &["a\n"]);
    assert!(matches!(r.outcome, Outcome::Passed));
    assert!(is_send(&r.actions[2], 1, "b\n"));
}

#[test]
fn runs_of_unchecked_scripts_halt_where_there_is_no_answer() {
    let m = parsed("x send \"1\";");
    let r = run_tests(&m, &args(), vec![]);
    assert!(matches!(r.outcome, Outcome::Halted(Halt::UnboundIdentifier)));
    let m = parsed("test a(\"p\") self shout \"1\";");
    let r = run_tests(&m, &args(), vec![]);
    assert!(matches!(r.outcome, Outcome::Halted(Halt::UnknownMethod)));
    let m = parsed("test a(\"p\") self send self;");
    let r = run_tests(&m, &args(), vec![]);
    assert!(matches!(r.outcome, Outcome::Halted(Halt::ArgumentNotString)));
    let m = parsed("\"p\" send \"1\";");
    let r = run_tests(&m, &args(), vec![]);
    assert!(matches!(r.outcome, Outcome::Halted(Halt::ReceiverNotProcess)));
}

#[test]
fn split_command_splits_at_every_space() {
    let (p, a) = split_command(&String::from("python3 calculator.py"));
    assert_eq!(p, "python3");
    assert_eq!(a, vec!["calculator.py".to_string()]);
    let (p, a) = split_command(&String::from("a  b "));
    assert_eq!(p, "a");
    assert_eq!(a, vec!["".to_string(), "b".to_string(), "".to_string()]);
    let (p, a) = split_command(&String::new());
    assert_eq!(p, "");
    assert!(a.is_empty());
    // the pieces joined with spaces give the command back
    let cmd = String::from(" x y  z");
    let (p, a) = split_command(&cmd);
    let mut joined = p.clone();
    for piece in &a {
        joined.push(' ');
        joined.push_str(piece);
    }
    assert_eq!(joined, cmd);
}

#[test]
fn a_checked_script_can_halt_only_after_a_test_failed() {
    let src = "test b({ test c(\"p\") self expect \"1\"; \"q\" }) { };\nself send \"2\";";
    // it type checks
    let m = module_of(src);
    // when the inner test passes, everything runs
    let ok = run_tests(&m, &args(), vec!["1\n".to_string()]);
    assert!(matches!(ok.outcome, Outcome::Passed));
    assert!(is_spawn(&ok.actions[2], 2, "p", &[]));
    assert!(is_spawn(&ok.actions[3], 3, "q", &[]));
    assert!(is_send(&ok.actions[4], 3, "2\n"));
    // when it fails, the command never gives `self` a process, and the last statement halts
    let failed = run_tests(&m, &args(), vec!["0\n".to_string()]);
    assert!(matches!(failed.outcome, Outcome::Halted(Halt::UnboundIdentifier)));
}

#[test]
fn successive_expects_read_successive_lines() {
    let src = "test t(\"cat\") { self send \"2\"; self send \"3\"; self expect \"2\"; self expect \"3\"; };";
    let first = run(src, &["2\n"]);
    assert!(matches!(first.outcome, Outcome::NeedsLine(1)));
    let both = run(src, &["2\n", "3\n"]);
    assert!(matches!(both.outcome, Outcome::Passed));
    let swapped = run(src, &["3\n", "2\n"]);
    assert!(matches!(swapped.outcome, Outcome::Failed(_)));
}
