//! Running the tests of a script, as decisions on plain values.
//!
//! Running a script starts processes, writes to them and reads lines from them. The
//! library does not do that work: it computes, from the script and the lines read so
//! far, the actions to perform (print a line, start a process, write to a process), and
//! either the outcome of the run or the process that a line must be read from next. The
//! caller performs the new actions, reads that line, and runs again with it appended;
//! the actions of a run are then extended, never changed (see
//! [`crate::replay::lemma_run_extends`]).
//!
//! A process is named by the index of the action that started it.
use vstd::prelude::*;

use crate::ast::{
    Block, Expression, ExpressionKind, Ident, MethodCall, Module, SpecBlock, SpecExpression,
    SpecExpressionKind, SpecIdent, SpecMethodCall, SpecModule, SpecStatement, SpecStatementKind,
    SpecTest, Statement, StatementKind, StringLiteral, Test,
    lemma_statements_view, statement_view, statements_view,
};
use crate::check::{expect_name, self_name, send_name, text_is};
use crate::chars::push_char;
use crate::lexer::chars_of;
use crate::message::strings_view;
use crate::environment::{RunTimeEnv, lookup};
use crate::error::{
    RunTimeErr, RunTimeErrKind, SpecRunTimeErr, SpecRunTimeErrKind, flatten_run_time_err,
    flatten_run_time_list, lemma_flatten_singles_run_time, lemma_run_time_errs_view_push,
    run_time_errs_view, single_run_time,
};
use crate::span::Span;
use crate::types::Value;
use crate::TescArgs;

verus! {

// ---------------------------------------------------------------- values and actions

pub enum SpecValue {
    String(Seq<char>),
    Process(usize),
    Reference(Box<SpecValue>),
    Void,
}

/// A value over mathematical values.
pub open spec fn value_view(v: Value) -> SpecValue
    decreases v,
{
    match v {
        Value::String(s) => SpecValue::String(s@),
        Value::Process(p) => SpecValue::Process(p),
        Value::Reference(inner) => SpecValue::Reference(Box::new(value_view(*inner))),
        Value::Void => SpecValue::Void,
    }
}

impl View for Value {
    type V = SpecValue;

    open spec fn view(&self) -> SpecValue {
        value_view(*self)
    }
}

/// Where running cannot go on as a test run: each is a case that the program has no
/// answer for.
#[derive(Clone, Copy, Debug, PartialEq, Eq, Structural)]
pub enum Halt {
    /// An identifier is bound to nothing.
    UnboundIdentifier,
    /// The argument of a method call is not a string.
    ArgumentNotString,
    /// Evaluating the argument of a method call failed a test.
    ArgumentFailed,
    /// The receiver of a method call is not a reference to a process.
    ReceiverNotProcess,
    /// The method is neither `send` nor `expect`.
    UnknownMethod,
}

/// Why evaluation stopped before a value.
#[derive(Debug)]
pub enum Interrupt {
    /// A test failed.
    Failed(RunTimeErr),
    /// A line must be read from this process first.
    NeedsLine(usize),
    Halted(Halt),
}

pub enum SpecInterrupt {
    Failed(SpecRunTimeErr),
    NeedsLine(usize),
    Halted(Halt),
}

/// Work that the caller performs, in order.
#[derive(Debug)]
pub enum Action {
    /// Print this line.
    Print(String),
    /// Start `program` with `args`, its standard streams piped, as process `process`.
    Spawn { process: usize, program: String, args: Vec<String> },
    /// Write `text` to the standard input of process `process`.
    Send { process: usize, text: String },
}

pub enum SpecAction {
    Print(Seq<char>),
    Spawn { process: usize, program: Seq<char>, args: Seq<Seq<char>> },
    Send { process: usize, text: Seq<char> },
}


impl View for Action {
    type V = SpecAction;

    open spec fn view(&self) -> SpecAction {
        match self {
            Action::Print(s) => SpecAction::Print(s@),
            Action::Spawn { process, program, args } => SpecAction::Spawn {
                process: *process,
                program: program@,
                args: strings_view(args@),
            },
            Action::Send { process, text } => SpecAction::Send { process: *process, text: text@ },
        }
    }
}

/// Actions over mathematical values, in order.
pub open spec fn actions_view(v: Seq<Action>) -> Seq<SpecAction> {
    v.map_values(|a: Action| a@)
}

/// The lines read so far, how many of them the run has used, and the actions so far.
pub struct Replay {
    pub lines: Vec<String>,
    pub read: usize,
    pub actions: Vec<Action>,
}

/// What a run has done so far: the scopes, how many lines it used, and its actions.
pub struct EvalState {
    pub env: Seq<Map<Seq<char>, Value>>,
    pub read: int,
    pub actions: Seq<SpecAction>,
}

/// The state of a run with scopes `env` and the record `replay`.
pub open spec fn state_of(env: Seq<Map<Seq<char>, Value>>, replay: Replay) -> EvalState {
    EvalState { env, read: replay.read as int, actions: actions_view(replay.actions@) }
}

// ---------------------------------------------------------------- the model

/// The pieces of `s` between spaces (`""` gives one empty piece).
pub open spec fn split_spaces(s: Seq<char>) -> Seq<Seq<char>>
    decreases s.len(),
{
    if s.len() == 0 {
        seq![Seq::empty()]
    } else if s.last() == ' ' {
        split_spaces(s.drop_last()).push(Seq::empty())
    } else {
        let p = split_spaces(s.drop_last());
        p.update(p.len() - 1, p.last().push(s.last()))
    }
}

/// The pieces joined, with a space between each two.
pub open spec fn join_spaces(pieces: Seq<Seq<char>>) -> Seq<char>
    decreases pieces.len(),
{
    if pieces.len() == 0 {
        Seq::empty()
    } else if pieces.len() == 1 {
        pieces[0]
    } else {
        join_spaces(pieces.drop_last()) + seq![' '] + pieces.last()
    }
}

/// Splitting at spaces loses nothing: there is at least one piece, no piece holds a
/// space, and the pieces joined with spaces give back the text.
pub proof fn lemma_split_spaces_join(s: Seq<char>)
    ensures
        split_spaces(s).len() >= 1,
        forall|i: int, k: int|
            0 <= i < split_spaces(s).len() && 0 <= k < split_spaces(s)[i].len() ==> #[trigger] split_spaces(s)[i][k] != ' ',
        join_spaces(split_spaces(s)) == s,
    decreases s.len(),
{
    if s.len() > 0 {
        let init = s.drop_last();
        let c = s.last();
        lemma_split_spaces_join(init);
        let p = split_spaces(init);
        if c == ' ' {
            let q = p.push(Seq::<char>::empty());
            assert(q.drop_last() =~= p);
            assert(join_spaces(q) =~= join_spaces(p) + seq![' '] + Seq::<char>::empty());
            assert(init + seq![' '] + Seq::<char>::empty() =~= s);
            assert forall|i: int, k: int|
                0 <= i < q.len() && 0 <= k < q[i].len() implies #[trigger] q[i][k] != ' ' by {
                if i < p.len() {
                    assert(q[i] == p[i]);
                }
            }
        } else {
            let q = p.update(p.len() - 1, p.last().push(c));
            assert forall|i: int, k: int|
                0 <= i < q.len() && 0 <= k < q[i].len() implies #[trigger] q[i][k] != ' ' by {
                if i < p.len() - 1 {
                    assert(q[i] == p[i]);
                } else if k < p.last().len() {
                    assert(q[i][k] == p[i][k]);
                }
            }
            if p.len() == 1 {
                assert(q[0] =~= init.push(c));
                assert(init.push(c) =~= s);
            } else {
                assert(q.drop_last() =~= p.drop_last());
                assert(join_spaces(q) == join_spaces(p.drop_last()) + seq![' '] + p.last().push(c));
                assert(join_spaces(p.drop_last()) + seq![' '] + p.last().push(c) =~= (join_spaces(
                    p.drop_last(),
                ) + seq![' '] + p.last()).push(c));
                assert(init.push(c) =~= s);
            }
        }
    }
}

/// `Testing: ` followed by the name.
pub open spec fn testing_line(name: Seq<char>) -> Seq<char> {
    seq!['T', 'e', 's', 't', 'i', 'n', 'g', ':', ' '] + name
}

/// Start the command `cmd` as a new process and bind `self` to it in the innermost frame.
pub open spec fn spawn_state(st: EvalState, cmd: Seq<char>) -> EvalState {
    let process = st.actions.len() as usize;
    let pieces = split_spaces(cmd);
    EvalState {
        env: st.env.update(
            st.env.len() - 1,
            st.env.last().insert(self_name(), Value::Process(process)),
        ),
        read: st.read,
        actions: st.actions.push(
            SpecAction::Spawn { process, program: pieces[0], args: pieces.drop_first() },
        ),
    }
}

/// The value of an identifier: a reference to what it is bound to.
pub open spec fn eval_ident(i: SpecIdent, st: EvalState) -> Result<SpecValue, SpecInterrupt> {
    match lookup(st.env, i.ident) {
        Some(v) => Ok(SpecValue::Reference(Box::new(value_view(v)))),
        None => Err(SpecInterrupt::Halted(Halt::UnboundIdentifier)),
    }
}

/// The value of an expression and the state after it.
pub open spec fn eval_expression(e: SpecExpression, lines: Seq<Seq<char>>, st: EvalState) -> (
    Result<SpecValue, SpecInterrupt>,
    EvalState,
)
    decreases e,
{
    match e.kind {
        SpecExpressionKind::Block(b) => eval_block(*b, lines, st),
        SpecExpressionKind::MethodCall(m) => eval_method_call(*m, lines, st),
        SpecExpressionKind::Ident(i) => (eval_ident(i, st), st),
        SpecExpressionKind::StringLiteral(s) => (Ok(SpecValue::String(s.string)), st),
    }
}

/// The statements run in order, up to the first that does not give a value.
pub open spec fn eval_sequence(stmts: Seq<SpecStatement>, lines: Seq<Seq<char>>, st: EvalState) -> (
    Result<(), SpecInterrupt>,
    EvalState,
)
    decreases stmts,
{
    if stmts.len() == 0 {
        (Ok(()), st)
    } else {
        let (r, st1) = eval_sequence(stmts.drop_last(), lines, st);
        match r {
            Err(i) => (Err(i), st1),
            Ok(()) => {
                let (r2, st2) = eval_statement(stmts.last(), lines, st1);
                (
                    match r2 {
                        Ok(_) => Ok(()),
                        Err(i) => Err(i),
                    },
                    st2,
                )
            },
        }
    }
}

/// A block runs in a scope of its own: its statements, then its tail.
pub open spec fn eval_block(b: SpecBlock, lines: Seq<Seq<char>>, st: EvalState) -> (
    Result<SpecValue, SpecInterrupt>,
    EvalState,
)
    decreases b,
{
    let st1 = EvalState { env: st.env.push(Map::empty()), ..st };
    let (r, st2) = eval_sequence(b.body, lines, st1);
    match r {
        Err(i) => (Err(i), st2),
        Ok(()) => match b.tail {
            Some(x) => eval_expression(x, lines, st2),
            None => (Ok(SpecValue::Void), st2),
        },
    }
}

/// `send` writes the argument and a newline to the process; `expect` reads a line from
/// it and fails the test unless the line is the argument and a newline.
pub open spec fn eval_method_call(m: SpecMethodCall, lines: Seq<Seq<char>>, st: EvalState) -> (
    Result<SpecValue, SpecInterrupt>,
    EvalState,
)
    decreases m,
{
    let (r, st1) = eval_expression(m.receiver, lines, st);
    match r {
        Err(i) => (Err(i), st1),
        Ok(recv) => {
            let (a, st2) = eval_expression(m.argument, lines, st1);
            match a {
                Err(SpecInterrupt::Failed(_)) => (
                    Err(SpecInterrupt::Halted(Halt::ArgumentFailed)),
                    st2,
                ),
                Err(i) => (Err(i), st2),
                Ok(SpecValue::String(s)) => {
                    let arg = s.push('\n');
                    match recv {
                        SpecValue::Reference(inner) => match *inner {
                            SpecValue::Process(p) => {
                                if m.method.ident == send_name() {
                                    (
                                        Ok(recv),
                                        EvalState {
                                            actions: st2.actions.push(
                                                SpecAction::Send { process: p, text: arg },
                                            ),
                                            ..st2
                                        },
                                    )
                                } else if m.method.ident == expect_name() {
                                    if 0 <= st2.read < lines.len() {
                                        let line = lines[st2.read];
                                        let st3 = EvalState { read: st2.read + 1, ..st2 };
                                        if line == arg {
                                            (Ok(recv), st3)
                                        } else {
                                            (
                                                Err(
                                                    SpecInterrupt::Failed(
                                                        SpecRunTimeErr {
                                                            kind: SpecRunTimeErrKind::OutputMissmatch {
                                                                actual: line,
                                                                expected: s,
                                                            },
                                                            span: Span {
                                                                start: m.method.span.start,
                                                                end: m.argument.span.end,
                                                            },
                                                        },
                                                    ),
                                                ),
                                                st3,
                                            )
                                        }
                                    } else {
                                        (Err(SpecInterrupt::NeedsLine(p)), st2)
                                    }
                                } else {
                                    (Err(SpecInterrupt::Halted(Halt::UnknownMethod)), st2)
                                }
                            },
                            _ => (Err(SpecInterrupt::Halted(Halt::ReceiverNotProcess)), st2),
                        },
                        _ => (Err(SpecInterrupt::Halted(Halt::ReceiverNotProcess)), st2),
                    }
                },
                Ok(_) => (Err(SpecInterrupt::Halted(Halt::ArgumentNotString)), st2),
            }
        },
    }
}

/// A test announces itself, opens a frame, starts its command (when the command is a
/// string) as `self`, runs its body and closes the innermost frame.
pub open spec fn eval_test(t: SpecTest, lines: Seq<Seq<char>>, st: EvalState) -> (
    Result<SpecValue, SpecInterrupt>,
    EvalState,
)
    decreases t,
{
    let st1 = EvalState {
        env: st.env.push(Map::empty()),
        read: st.read,
        actions: st.actions.push(SpecAction::Print(testing_line(t.name.ident))),
    };
    let (c, st2) = eval_expression(t.command, lines, st1);
    match c {
        Err(i) => (Err(i), st2),
        Ok(v) => {
            let st3 = match v {
                SpecValue::String(cmd) => spawn_state(st2, cmd),
                _ => st2,
            };
            let (r, st4) = eval_statement(*t.body, lines, st3);
            (r, EvalState { env: st4.env.drop_last(), ..st4 })
        },
    }
}

/// The value of a statement and the state after it.
pub open spec fn eval_statement(s: SpecStatement, lines: Seq<Seq<char>>, st: EvalState) -> (
    Result<SpecValue, SpecInterrupt>,
    EvalState,
)
    decreases s,
{
    let (r, st1) = match s.kind {
        SpecStatementKind::Test(t) => eval_test(t, lines, st),
        SpecStatementKind::Expression(e) => eval_expression(e, lines, st),
    };
    (
        match r {
            Ok(_) => Ok(SpecValue::Void),
            Err(i) => Err(i),
        },
        st1,
    )
}

/// The statements run in order, collecting failed tests; anything else stops the run.
pub open spec fn eval_collect(stmts: Seq<SpecStatement>, lines: Seq<Seq<char>>, st: EvalState) -> (
    Result<Seq<SpecRunTimeErr>, SpecInterrupt>,
    EvalState,
)
    decreases stmts,
{
    if stmts.len() == 0 {
        (Ok(Seq::empty()), st)
    } else {
        let (r, st1) = eval_collect(stmts.drop_last(), lines, st);
        match r {
            Err(i) => (Err(i), st1),
            Ok(errs) => {
                let (r2, st2) = eval_statement(stmts.last(), lines, st1);
                match r2 {
                    Ok(_) => (Ok(errs), st2),
                    Err(SpecInterrupt::Failed(e)) => (Ok(errs.push(e)), st2),
                    Err(i) => (Err(i), st2),
                }
            },
        }
    }
}

/// Every statement of the script run in order: `Ok` when no test failed, else the
/// failures, flattened, at the span `0..0`.
pub open spec fn eval_module(m: SpecModule, lines: Seq<Seq<char>>, st: EvalState) -> (
    Result<SpecValue, SpecInterrupt>,
    EvalState,
) {
    let (r, st1) = eval_collect(m.ast, lines, st);
    (
        match r {
            Err(i) => Err(i),
            Ok(errs) => if errs.len() == 0 {
                Ok(SpecValue::Void)
            } else {
                Err(
                    SpecInterrupt::Failed(
                        flatten_run_time_err(
                            SpecRunTimeErr {
                                kind: SpecRunTimeErrKind::Multiple(errs),
                                span: Span { start: 0, end: 0 },
                            },
                        ),
                    ),
                )
            },
        },
        st1,
    )
}

// ---------------------------------------------------------------- scope depth

/// Running an expression never drops a scope.
pub proof fn lemma_eval_expression_depth(e: SpecExpression, lines: Seq<Seq<char>>, st: EvalState)
    ensures
        eval_expression(e, lines, st).1.env.len() >= st.env.len(),
    decreases e,
{
    match e.kind {
        SpecExpressionKind::Block(b) => lemma_eval_block_depth(*b, lines, st),
        SpecExpressionKind::MethodCall(m) => lemma_eval_method_call_depth(*m, lines, st),
        _ => {},
    }
}

/// Running statements in order never drops a scope.
pub proof fn lemma_eval_sequence_depth(
    stmts: Seq<SpecStatement>,
    lines: Seq<Seq<char>>,
    st: EvalState,
)
    ensures
        eval_sequence(stmts, lines, st).1.env.len() >= st.env.len(),
    decreases stmts,
{
    if stmts.len() > 0 {
        lemma_eval_sequence_depth(stmts.drop_last(), lines, st);
        lemma_eval_statement_depth(stmts.last(), lines, eval_sequence(stmts.drop_last(), lines, st).1);
    }
}

/// Running statements and collecting their failures never drops a scope.
pub proof fn lemma_eval_collect_depth(
    stmts: Seq<SpecStatement>,
    lines: Seq<Seq<char>>,
    st: EvalState,
)
    ensures
        eval_collect(stmts, lines, st).1.env.len() >= st.env.len(),
    decreases stmts,
{
    if stmts.len() > 0 {
        lemma_eval_collect_depth(stmts.drop_last(), lines, st);
        lemma_eval_statement_depth(stmts.last(), lines, eval_collect(stmts.drop_last(), lines, st).1);
    }
}

/// A block leaves behind at least the scope it opened.
pub proof fn lemma_eval_block_depth(b: SpecBlock, lines: Seq<Seq<char>>, st: EvalState)
    ensures
        eval_block(b, lines, st).1.env.len() > st.env.len(),
    decreases b,
{
    let st1 = EvalState { env: st.env.push(Map::empty()), ..st };
    lemma_eval_sequence_depth(b.body, lines, st1);
    if let Some(x) = b.tail {
        lemma_eval_expression_depth(x, lines, eval_sequence(b.body, lines, st1).1);
    }
}

/// Running a method call never drops a scope.
pub proof fn lemma_eval_method_call_depth(m: SpecMethodCall, lines: Seq<Seq<char>>, st: EvalState)
    ensures
        eval_method_call(m, lines, st).1.env.len() >= st.env.len(),
    decreases m,
{
    lemma_eval_expression_depth(m.receiver, lines, st);
    lemma_eval_expression_depth(m.argument, lines, eval_expression(m.receiver, lines, st).1);
}

/// Running a test never drops a scope.
pub proof fn lemma_eval_test_depth(t: SpecTest, lines: Seq<Seq<char>>, st: EvalState)
    ensures
        eval_test(t, lines, st).1.env.len() >= st.env.len(),
    decreases t,
{
    let st1 = EvalState {
        env: st.env.push(Map::empty()),
        read: st.read,
        actions: st.actions.push(SpecAction::Print(testing_line(t.name.ident))),
    };
    lemma_eval_expression_depth(t.command, lines, st1);
    let (c, st2) = eval_expression(t.command, lines, st1);
    if let Ok(v) = c {
        let st3 = match v {
            SpecValue::String(cmd) => spawn_state(st2, cmd),
            _ => st2,
        };
        lemma_eval_statement_depth(*t.body, lines, st3);
    }
}

/// Running a statement never drops a scope.
pub proof fn lemma_eval_statement_depth(s: SpecStatement, lines: Seq<Seq<char>>, st: EvalState)
    ensures
        eval_statement(s, lines, st).1.env.len() >= st.env.len(),
    decreases s,
{
    match s.kind {
        SpecStatementKind::Test(t) => lemma_eval_test_depth(t, lines, st),
        SpecStatementKind::Expression(e) => lemma_eval_expression_depth(e, lines, st),
    }
}

// ---------------------------------------------------------------- what is reported

/// The failure, if the evaluation failed a test.
pub open spec fn failure<T>(r: Result<T, SpecInterrupt>) -> Option<SpecRunTimeErr> {
    match r {
        Err(SpecInterrupt::Failed(e)) => Some(e),
        _ => None,
    }
}

/// An expression that fails reports no nested `Multiple` error.
pub proof fn lemma_eval_expression_single(e: SpecExpression, lines: Seq<Seq<char>>, st: EvalState)
    ensures
        failure(eval_expression(e, lines, st).0) matches Some(x) ==> single_run_time(x),
    decreases e,
{
    match e.kind {
        SpecExpressionKind::Block(b) => lemma_eval_block_single(*b, lines, st),
        SpecExpressionKind::MethodCall(m) => lemma_eval_method_call_single(*m, lines, st),
        _ => {},
    }
}

/// Statements run in order that fail report no nested `Multiple` error.
pub proof fn lemma_eval_sequence_single(
    stmts: Seq<SpecStatement>,
    lines: Seq<Seq<char>>,
    st: EvalState,
)
    ensures
        failure(eval_sequence(stmts, lines, st).0) matches Some(x) ==> single_run_time(x),
    decreases stmts,
{
    if stmts.len() > 0 {
        lemma_eval_sequence_single(stmts.drop_last(), lines, st);
        lemma_eval_statement_single(stmts.last(), lines, eval_sequence(stmts.drop_last(), lines, st).1);
    }
}

/// Each failure collected from statements reports no nested `Multiple` error.
pub proof fn lemma_eval_collect_single(
    stmts: Seq<SpecStatement>,
    lines: Seq<Seq<char>>,
    st: EvalState,
)
    ensures
        eval_collect(stmts, lines, st).0 matches Ok(errs) ==> forall|i: int|
            0 <= i < errs.len() ==> single_run_time(#[trigger] errs[i]),
        failure(eval_collect(stmts, lines, st).0) is None,
    decreases stmts,
{
    if stmts.len() > 0 {
        lemma_eval_collect_single(stmts.drop_last(), lines, st);
        lemma_eval_statement_single(stmts.last(), lines, eval_collect(stmts.drop_last(), lines, st).1);
        let (r, st1) = eval_collect(stmts.drop_last(), lines, st);
        if let Ok(errs) = r {
            if let Err(SpecInterrupt::Failed(e)) = eval_statement(stmts.last(), lines, st1).0 {
                assert forall|i: int| 0 <= i < errs.push(e).len() implies single_run_time(
                    #[trigger] errs.push(e)[i],
                ) by {
                    if i < errs.len() {
                        assert(errs.push(e)[i] == errs[i]);
                    }
                }
            }
        }
    }
}

/// A block that fails reports no nested `Multiple` error.
pub proof fn lemma_eval_block_single(b: SpecBlock, lines: Seq<Seq<char>>, st: EvalState)
    ensures
        failure(eval_block(b, lines, st).0) matches Some(x) ==> single_run_time(x),
    decreases b,
{
    let st1 = EvalState { env: st.env.push(Map::empty()), ..st };
    lemma_eval_sequence_single(b.body, lines, st1);
    if let Some(x) = b.tail {
        lemma_eval_expression_single(x, lines, eval_sequence(b.body, lines, st1).1);
    }
}

/// A method call that fails reports no nested `Multiple` error.
pub proof fn lemma_eval_method_call_single(m: SpecMethodCall, lines: Seq<Seq<char>>, st: EvalState)
    ensures
        failure(eval_method_call(m, lines, st).0) matches Some(x) ==> single_run_time(x),
    decreases m,
{
    lemma_eval_expression_single(m.receiver, lines, st);
}

/// A test that fails reports no nested `Multiple` error.
pub proof fn lemma_eval_test_single(t: SpecTest, lines: Seq<Seq<char>>, st: EvalState)
    ensures
        failure(eval_test(t, lines, st).0) matches Some(x) ==> single_run_time(x),
    decreases t,
{
    let st1 = EvalState {
        env: st.env.push(Map::empty()),
        read: st.read,
        actions: st.actions.push(SpecAction::Print(testing_line(t.name.ident))),
    };
    lemma_eval_expression_single(t.command, lines, st1);
    let (c, st2) = eval_expression(t.command, lines, st1);
    if let Ok(v) = c {
        let st3 = match v {
            SpecValue::String(cmd) => spawn_state(st2, cmd),
            _ => st2,
        };
        lemma_eval_statement_single(*t.body, lines, st3);
    }
}

/// A statement that fails reports no nested `Multiple` error.
pub proof fn lemma_eval_statement_single(s: SpecStatement, lines: Seq<Seq<char>>, st: EvalState)
    ensures
        failure(eval_statement(s, lines, st).0) matches Some(x) ==> single_run_time(x),
    decreases s,
{
    match s.kind {
        SpecStatementKind::Test(t) => lemma_eval_test_single(t, lines, st),
        SpecStatementKind::Expression(e) => lemma_eval_expression_single(e, lines, st),
    }
}

// ---------------------------------------------------------------- the evaluator

/// A result of a run over mathematical values.
pub open spec fn eval_result_view(r: Result<Value, Interrupt>) -> Result<SpecValue, SpecInterrupt> {
    match r {
        Ok(v) => Ok(v@),
        Err(Interrupt::Failed(e)) => Err(SpecInterrupt::Failed(e@)),
        Err(Interrupt::NeedsLine(p)) => Err(SpecInterrupt::NeedsLine(p)),
        Err(Interrupt::Halted(h)) => Err(SpecInterrupt::Halted(h)),
    }
}

/// The replay is in order: it has not used more lines than it holds.
pub open spec fn replay_ok(r: Replay) -> bool {
    r.read <= r.lines@.len()
}

fn push_action(replay: &mut Replay, a: Action)
    ensures
        final(replay).lines == old(replay).lines,
        final(replay).read == old(replay).read,
        actions_view(final(replay).actions@) == actions_view(old(replay).actions@).push(a@),
{
    replay.actions.push(a);
    assert(actions_view(replay.actions@) =~= actions_view(old(replay).actions@).push(a@));
}

/// The pieces of `cmd` between spaces: the first, and the others in order.
pub fn split_command(cmd: &String) -> (r: (String, Vec<String>))
    ensures
        r.0@ == split_spaces(cmd@)[0],
        strings_view(r.1@) == split_spaces(cmd@).drop_first(),
{
    let cs = chars_of(cmd.as_str());
    let mut pieces: Vec<String> = Vec::new();
    pieces.push(String::new());
    let mut i: usize = 0;
    proof {
        assert(cs@.take(0) =~= Seq::<char>::empty());
        assert(strings_view(pieces@) =~= split_spaces(cs@.take(0)));
    }
    while i < cs.len()
        invariant
            cs@ == cmd@,
            i <= cs@.len(),
            pieces@.len() > 0,
            strings_view(pieces@) == split_spaces(cs@.take(i as int)),
        decreases cs@.len() - i,
    {
        proof {
            assert(cs@.take(i + 1).drop_last() =~= cs@.take(i as int));
            assert(cs@.take(i + 1).last() == cs@[i as int]);
        }
        let c = cs[i];
        if c == ' ' {
            pieces.push(String::new());
            assert(strings_view(pieces@) =~= split_spaces(cs@.take(i + 1)));
        } else {
            let ghost before = strings_view(pieces@);
            let mut last = pieces.pop().unwrap();
            push_char(&mut last, c);
            pieces.push(last);
            assert(strings_view(pieces@) =~= before.update(before.len() - 1, before.last().push(c)));
        }
        i = i + 1;
    }
    proof {
        assert(cs@.take(i as int) =~= cs@);
    }
    let program = pieces.remove(0);
    assert(strings_view(pieces@) =~= split_spaces(cmd@).drop_first());
    (program, pieces)
}

impl StringLiteral {
    /// A string literal evaluates to its text.
    pub fn eval(&self, _opts: &TescArgs, _env: &mut RunTimeEnv, _replay: &mut Replay) -> (r:
        Result<Value, Interrupt>)
        ensures
            eval_result_view(r) == Ok::<SpecValue, SpecInterrupt>(SpecValue::String(self.string@)),
            final(_env)@ == old(_env)@,
            *final(_replay) == *old(_replay),
    {
        Ok(Value::String(self.string.clone()))
    }
}

impl Ident {
    /// The value of the identifier in the scopes, as `eval_ident` gives it.
    pub fn eval(&self, _opts: &TescArgs, env: &mut RunTimeEnv, _replay: &mut Replay) -> (r:
        Result<Value, Interrupt>)
        ensures
            eval_result_view(r) == eval_ident(self@, state_of(old(env)@, *old(_replay))),
            final(env)@ == old(env)@,
            *final(_replay) == *old(_replay),
    {
        match env.get(&self.ident) {
            Some(v) => Ok(Value::Reference(Box::new(v))),
            None => Err(Interrupt::Halted(Halt::UnboundIdentifier)),
        }
    }
}

impl Expression {
    /// The value of the expression and the state after it, as `eval_expression` gives them.
    pub fn eval(&self, opts: &TescArgs, env: &mut RunTimeEnv, replay: &mut Replay) -> (r: Result<
        Value,
        Interrupt,
    >)
        requires
            replay_ok(*old(replay)),
        ensures
            replay_ok(*final(replay)),
            final(replay).lines == old(replay).lines,
            (eval_result_view(r), state_of(final(env)@, *final(replay))) == eval_expression(
                self@,
                strings_view(old(replay).lines@),
                state_of(old(env)@, *old(replay)),
            ),
        decreases self,
    {
        match &self.kind {
            ExpressionKind::Block(block) => {
                let block: &Block = block;
                block.eval(opts, env, replay)
            },
            ExpressionKind::MethodCall(method_call) => {
                let method_call: &MethodCall = method_call;
                method_call.eval(opts, env, replay)
            },
            ExpressionKind::Ident(ident) => ident.eval(opts, env, replay),
            ExpressionKind::StringLiteral(string) => string.eval(opts, env, replay),
        }
    }
}

impl Block {
    /// The value of the block and the state after it, as `eval_block` gives them.
    pub fn eval(&self, opts: &TescArgs, env: &mut RunTimeEnv, replay: &mut Replay) -> (r: Result<
        Value,
        Interrupt,
    >)
        requires
            replay_ok(*old(replay)),
        ensures
            replay_ok(*final(replay)),
            final(replay).lines == old(replay).lines,
            (eval_result_view(r), state_of(final(env)@, *final(replay))) == eval_block(
                self@,
                strings_view(old(replay).lines@),
                state_of(old(env)@, *old(replay)),
            ),
        decreases self,
    {
        let ghost lines = strings_view(replay.lines@);
        let ghost sv = statements_view(self.body@);
        env.push_frame();
        let ghost st1 = state_of(env@, *replay);
        proof {
            lemma_statements_view(self.body@);
            assert(sv.take(0) =~= Seq::<SpecStatement>::empty());
        }
        let mut i: usize = 0;
        while i < self.body.len()
            invariant
                sv == statements_view(self.body@),
                sv.len() == self.body@.len(),
                forall|k: int| 0 <= k < sv.len() ==> sv[k] == statement_view(#[trigger] self.body@[k]),
                i <= self.body@.len(),
                replay_ok(*replay),
                replay.lines == old(replay).lines,
                lines == strings_view(replay.lines@),
                st1 == (EvalState {
                    env: old(env)@.push(Map::empty()),
                    ..state_of(old(env)@, *old(replay))
                }),
                eval_sequence(sv.take(i as int), lines, st1) == (
                    Ok::<(), SpecInterrupt>(()),
                    state_of(env@, *replay),
                ),
            decreases self.body@.len() - i,
        {
            proof {
                assert(sv.take(i + 1).drop_last() =~= sv.take(i as int));
                assert(sv.take(i + 1).last() == sv[i as int]);
            }
            let stmt: &Statement = &self.body[i];
            match stmt.eval(opts, env, replay) {
                Ok(_) => {},
                Err(e) => {
                    proof {
                        assert(eval_sequence(sv.take(i + 1), lines, st1) == (
                            Err::<(), SpecInterrupt>(eval_result_view(Err(e))->Err_0),
                            state_of(env@, *replay),
                        ));
                        lemma_eval_sequence_prefix_stops(sv, i as int + 1, lines, st1);
                    }
                    return Err(e);
                },
            }
            i = i + 1;
        }
        proof {
            assert(sv.take(i as int) =~= sv);
        }
        match &self.tail {
            Some(expr) => expr.eval(opts, env, replay),
            None => Ok(Value::Void),
        }
    }
}

/// Once a prefix of the statements stops, the whole sequence stops there too.
proof fn lemma_eval_sequence_prefix_stops(
    sv: Seq<SpecStatement>,
    n: int,
    lines: Seq<Seq<char>>,
    st: EvalState,
)
    requires
        0 <= n <= sv.len(),
        eval_sequence(sv.take(n), lines, st).0 is Err,
    ensures
        eval_sequence(sv, lines, st) == eval_sequence(sv.take(n), lines, st),
    decreases sv.len() - n,
{
    if n < sv.len() {
        assert(sv.take(n + 1).drop_last() =~= sv.take(n));
        lemma_eval_sequence_prefix_stops(sv, n + 1, lines, st);
    } else {
        assert(sv.take(n) =~= sv);
    }
}

impl MethodCall {
    /// The value of the method call and the state after it, as `eval_method_call` gives them.
    pub fn eval(&self, opts: &TescArgs, env: &mut RunTimeEnv, replay: &mut Replay) -> (r: Result<
        Value,
        Interrupt,
    >)
        requires
            replay_ok(*old(replay)),
        ensures
            replay_ok(*final(replay)),
            final(replay).lines == old(replay).lines,
            (eval_result_view(r), state_of(final(env)@, *final(replay))) == eval_method_call(
                self@,
                strings_view(old(replay).lines@),
                state_of(old(env)@, *old(replay)),
            ),
        decreases self,
    {
        let recv = match self.receiver.eval(opts, env, replay) {
            Ok(v) => v,
            Err(i) => {
                return Err(i);
            },
        };
        let s = match self.argument.eval(opts, env, replay) {
            Ok(Value::String(s)) => s,
            Ok(_) => {
                return Err(Interrupt::Halted(Halt::ArgumentNotString));
            },
            Err(Interrupt::Failed(_)) => {
                return Err(Interrupt::Halted(Halt::ArgumentFailed));
            },
            Err(i) => {
                return Err(i);
            },
        };
        let mut arg = s.clone();
        push_char(&mut arg, '\n');
        let p = match &recv {
            Value::Reference(inner) => {
                let inner: &Value = inner;
                proof {
                    assert(recv@ == SpecValue::Reference(Box::new(inner@)));
                }
                match inner {
                    Value::Process(p) => *p,
                    _ => {
                        assert(!(inner@ is Process));
                        return Err(Interrupt::Halted(Halt::ReceiverNotProcess));
                    },
                }
            },
            _ => {
                assert(!(recv@ is Reference));
                return Err(Interrupt::Halted(Halt::ReceiverNotProcess));
            },
        };
        proof {
            reveal_strlit("send");
            reveal_strlit("expect");
            assert("send"@ =~= send_name());
            assert("expect"@ =~= expect_name());
        }
        if text_is(&self.method.ident, "send") {
            push_action(replay, Action::Send { process: p, text: arg });
            Ok(recv)
        } else if text_is(&self.method.ident, "expect") {
            if replay.read < replay.lines.len() {
                let line = replay.lines[replay.read].clone();
                replay.read = replay.read + 1;
                if line == arg {
                    Ok(recv)
                } else {
                    Err(
                        Interrupt::Failed(
                            RunTimeErr {
                                kind: RunTimeErrKind::OutputMissmatch { actual: line, expected: s },
                                span: Span {
                                    start: self.method.span.start,
                                    end: self.argument.span.end,
                                },
                            },
                        ),
                    )
                }
            } else {
                Err(Interrupt::NeedsLine(p))
            }
        } else {
            Err(Interrupt::Halted(Halt::UnknownMethod))
        }
    }
}

impl Test {
    /// The value of the test and the state after it, as `eval_test` gives them.
    pub fn eval(&self, opts: &TescArgs, env: &mut RunTimeEnv, replay: &mut Replay) -> (r: Result<
        Value,
        Interrupt,
    >)
        requires
            replay_ok(*old(replay)),
        ensures
            replay_ok(*final(replay)),
            final(replay).lines == old(replay).lines,
            (eval_result_view(r), state_of(final(env)@, *final(replay))) == eval_test(
                self@,
                strings_view(old(replay).lines@),
                state_of(old(env)@, *old(replay)),
            ),
        decreases self,
    {
        let ghost lines = strings_view(replay.lines@);
        let mut line = String::from_str("Testing: ");
        line.append(self.name.ident.as_str());
        proof {
            reveal_strlit("Testing: ");
            assert(line@ =~= testing_line(self.name.ident@));
        }
        push_action(replay, Action::Print(line));
        env.push_frame();
        let ghost st1 = state_of(env@, *replay);
        let c = match self.command.eval(opts, env, replay) {
            Ok(v) => v,
            Err(i) => {
                return Err(i);
            },
        };
        proof {
            lemma_eval_expression_depth(self@.command, lines, st1);
        }
        if let Value::String(cmd) = c {
            let ghost st2 = state_of(env@, *replay);
            let process = replay.actions.len();
            let (program, args) = split_command(&cmd);
            push_action(replay, Action::Spawn { process, program, args });
            proof {
                reveal_strlit("self");
                assert("self"@ =~= self_name());
            }
            env.spawn(String::from_str("self"), process);
            assert(state_of(env@, *replay) == spawn_state(st2, cmd@));
        }
        let ghost st3 = state_of(env@, *replay);
        let body: &Statement = &self.body;
        let result = body.eval(opts, env, replay);
        proof {
            lemma_eval_statement_depth(*self@.body, lines, st3);
        }
        env.pop_frame();
        result
    }
}

impl Statement {
    /// The value of the statement and the state after it, as `eval_statement` gives them.
    pub fn eval(&self, opts: &TescArgs, env: &mut RunTimeEnv, replay: &mut Replay) -> (r: Result<
        Value,
        Interrupt,
    >)
        requires
            replay_ok(*old(replay)),
        ensures
            replay_ok(*final(replay)),
            final(replay).lines == old(replay).lines,
            (eval_result_view(r), state_of(final(env)@, *final(replay))) == eval_statement(
                self@,
                strings_view(old(replay).lines@),
                state_of(old(env)@, *old(replay)),
            ),
        decreases self,
    {
        let r = match &self.kind {
            StatementKind::Test(test) => test.eval(opts, env, replay),
            StatementKind::Expression(expression) => expression.eval(opts, env, replay),
        };
        match r {
            Ok(_) => Ok(Value::Void),
            Err(i) => Err(i),
        }
    }
}

/// Once a prefix of the statements is interrupted, the whole run is interrupted there.
proof fn lemma_eval_collect_prefix_stops(
    sv: Seq<SpecStatement>,
    n: int,
    lines: Seq<Seq<char>>,
    st: EvalState,
)
    requires
        0 <= n <= sv.len(),
        eval_collect(sv.take(n), lines, st).0 is Err,
    ensures
        eval_collect(sv, lines, st) == eval_collect(sv.take(n), lines, st),
    decreases sv.len() - n,
{
    if n < sv.len() {
        assert(sv.take(n + 1).drop_last() =~= sv.take(n));
        lemma_eval_collect_prefix_stops(sv, n + 1, lines, st);
    } else {
        assert(sv.take(n) =~= sv);
    }
}

impl Module {
    /// The result of the script and the state after it, as `eval_module` gives them.
    pub fn eval(&self, opts: &TescArgs, env: &mut RunTimeEnv, replay: &mut Replay) -> (r: Result<
        Value,
        Interrupt,
    >)
        requires
            replay_ok(*old(replay)),
        ensures
            replay_ok(*final(replay)),
            final(replay).lines == old(replay).lines,
            (eval_result_view(r), state_of(final(env)@, *final(replay))) == eval_module(
                self@,
                strings_view(old(replay).lines@),
                state_of(old(env)@, *old(replay)),
            ),
    {
        let ghost lines = strings_view(replay.lines@);
        let ghost sv = statements_view(self.ast@);
        let ghost st0 = state_of(env@, *replay);
        let mut failures: Vec<RunTimeErr> = Vec::new();
        proof {
            lemma_statements_view(self.ast@);
            assert(sv.take(0) =~= Seq::<SpecStatement>::empty());
        }
        let mut i: usize = 0;
        while i < self.ast.len()
            invariant
                sv == statements_view(self.ast@),
                sv.len() == self.ast@.len(),
                forall|k: int| 0 <= k < sv.len() ==> sv[k] == statement_view(#[trigger] self.ast@[k]),
                i <= self.ast@.len(),
                replay_ok(*replay),
                replay.lines == old(replay).lines,
                lines == strings_view(replay.lines@),
                st0 == state_of(old(env)@, *old(replay)),
                eval_collect(sv.take(i as int), lines, st0) == (
                    Ok::<Seq<SpecRunTimeErr>, SpecInterrupt>(run_time_errs_view(failures@)),
                    state_of(env@, *replay),
                ),
            decreases self.ast@.len() - i,
        {
            proof {
                assert(sv.take(i + 1).drop_last() =~= sv.take(i as int));
                assert(sv.take(i + 1).last() == sv[i as int]);
            }
            match self.ast[i].eval(opts, env, replay) {
                Ok(_) => {},
                Err(Interrupt::Failed(e)) => {
                    proof {
                        lemma_run_time_errs_view_push(failures@, e);
                    }
                    failures.push(e);
                },
                Err(i2) => {
                    proof {
                        assert(eval_collect(sv.take(i + 1), lines, st0) == (
                            Err::<Seq<SpecRunTimeErr>, SpecInterrupt>(
                                eval_result_view(Err(i2))->Err_0,
                            ),
                            state_of(env@, *replay),
                        ));
                        lemma_eval_collect_prefix_stops(sv, i as int + 1, lines, st0);
                    }
                    return Err(i2);
                },
            }
            i = i + 1;
        }
        proof {
            assert(sv.take(i as int) =~= sv);
        }
        if failures.len() == 0 {
            Ok(Value::Void)
        } else {
            Err(
                Interrupt::Failed(
                    RunTimeErr {
                        kind: RunTimeErrKind::Multiple(failures),
                        span: Span { start: 0, end: 0 },
                    }.flatten(),
                ),
            )
        }
    }
}

// ---------------------------------------------------------------- a whole run

/// How a run of the tests ends.
#[derive(Debug)]
pub enum Outcome {
    /// Every test passed.
    Passed,
    /// Some tests failed: their failures.
    Failed(RunTimeErr),
    /// A line must be read from this process, then the run is made again with it.
    NeedsLine(usize),
    /// The run met a case that the program has no answer for.
    Halted(Halt),
}

/// How a run ended, over mathematical values.
pub enum SpecOutcome {
    Passed,
    Failed(SpecRunTimeErr),
    NeedsLine(usize),
    Halted(Halt),
}

impl View for Outcome {
    type V = SpecOutcome;

    open spec fn view(&self) -> SpecOutcome {
        match self {
            Outcome::Passed => SpecOutcome::Passed,
            Outcome::Failed(e) => SpecOutcome::Failed(e@),
            Outcome::NeedsLine(p) => SpecOutcome::NeedsLine(*p),
            Outcome::Halted(h) => SpecOutcome::Halted(*h),
        }
    }
}

/// The actions of a run and how it ends.
#[derive(Debug)]
pub struct TestRun {
    pub actions: Vec<Action>,
    pub outcome: Outcome,
}

/// The state a run starts from: no frames, no line used, no action.
pub open spec fn initial_state() -> EvalState {
    EvalState { env: Seq::empty(), read: 0, actions: Seq::empty() }
}

/// A run of the tests of `m`, given the lines read so far: its actions and its outcome.
pub open spec fn run_model(m: SpecModule, lines: Seq<Seq<char>>) -> (Seq<SpecAction>, SpecOutcome) {
    let (r, st) = eval_module(m, lines, initial_state());
    (
        st.actions,
        match r {
            Ok(_) => SpecOutcome::Passed,
            Err(SpecInterrupt::Failed(e)) => SpecOutcome::Failed(e),
            Err(SpecInterrupt::NeedsLine(p)) => SpecOutcome::NeedsLine(p),
            Err(SpecInterrupt::Halted(h)) => SpecOutcome::Halted(h),
        },
    )
}

/// Runs the tests of `module` with the lines read so far from the processes, in the
/// order in which they were asked for.
pub fn run_tests(module: &Module, opts: &TescArgs, lines: Vec<String>) -> (r: TestRun)
    ensures
        (actions_view(r.actions@), r.outcome@) == run_model(module@, strings_view(lines@)),
{
    let mut env = RunTimeEnv::new();
    let mut replay = Replay { lines, read: 0, actions: Vec::new() };
    proof {
        assert(actions_view(replay.actions@) =~= Seq::<SpecAction>::empty());
        assert(state_of(env@, replay) == initial_state());
    }
    let r = module.eval(opts, &mut env, &mut replay);
    let outcome = match r {
        Ok(_) => Outcome::Passed,
        Err(Interrupt::Failed(e)) => Outcome::Failed(e),
        Err(Interrupt::NeedsLine(p)) => Outcome::NeedsLine(p),
        Err(Interrupt::Halted(h)) => Outcome::Halted(h),
    };
    TestRun { actions: replay.actions, outcome }
}

/// A run that fails tests reports a `Multiple` of their failures, each a single one: the
/// line that the program printed where a test expected another.
pub proof fn lemma_run_reports_singles(m: SpecModule, lines: Seq<Seq<char>>)
    ensures
        run_model(m, lines).1 matches SpecOutcome::Failed(e) ==> (e.kind matches SpecRunTimeErrKind::Multiple(
            errs,
        ) && errs.len() > 0 && forall|i: int|
            0 <= i < errs.len() ==> (#[trigger] errs[i]).kind is OutputMissmatch),
{
    lemma_eval_collect_single(m.ast, lines, initial_state());
    if let Ok(errs) = eval_collect(m.ast, lines, initial_state()).0 {
        if errs.len() > 0 {
            lemma_flatten_singles_run_time(errs);
            let flat = flatten_run_time_err(
                SpecRunTimeErr {
                    kind: SpecRunTimeErrKind::Multiple(errs),
                    span: Span { start: 0, end: 0 },
                },
            );
            assert(flat.kind == SpecRunTimeErrKind::Multiple(flatten_run_time_list(errs)));
            assert forall|i: int| 0 <= i < errs.len() implies (#[trigger] errs[i]).kind is OutputMissmatch by {
                assert(single_run_time(errs[i]));
            }
        }
    }
}

} // verus!
