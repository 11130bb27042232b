//! Running again with more lines.
//!
//! A run reads the lines it is given in order and asks for the next one only when it has
//! used them all. So a run that did not wait for a line is the same run with more lines
//! after them, and a run that waited is, with more lines, a run whose actions begin with
//! the actions of the first: the caller performs only the new ones.
use vstd::prelude::*;

use crate::ast::{
    SpecBlock, SpecExpression, SpecExpressionKind, SpecMethodCall, SpecModule, SpecStatement,
    SpecStatementKind, SpecTest,
};
use crate::check::{expect_name, self_name};
use crate::environment::lookup;
use crate::error::SpecRunTimeErrKind;
use crate::eval::{
    EvalState, SpecAction, SpecInterrupt, SpecValue, eval_block, eval_collect, eval_expression,
    eval_method_call, eval_module, eval_sequence, eval_statement, eval_test,
    initial_state, join_spaces, lemma_split_spaces_join, run_model, spawn_state, split_spaces,
    testing_line,
};
use crate::types::Value;

verus! {

/// `a` is a prefix of `b`.
pub open spec fn is_prefix(a: Seq<SpecAction>, b: Seq<SpecAction>) -> bool {
    &&& a.len() <= b.len()
    &&& forall|i: int| 0 <= i < a.len() ==> #[trigger] b[i] == a[i]
}

/// From `st` to `st2` no line was given back and no action was changed.
pub open spec fn grows(st: EvalState, st2: EvalState) -> bool {
    st.read <= st2.read && is_prefix(st.actions, st2.actions)
}

/// The evaluation waits for a line.
pub open spec fn suspended<T>(r: Result<T, SpecInterrupt>) -> bool {
    r matches Err(SpecInterrupt::NeedsLine(_))
}

/// One evaluation from `st`: `short` with the lines `lines`, `long` with `more` lines after
/// them. Both only go forward and use only lines they hold; unless `short` waits for a
/// line, `long` is the same; if it waits, it has used every line, and `long` keeps its
/// actions.
pub open spec fn replays<T>(
    st: EvalState,
    lines: Seq<Seq<char>>,
    more: Seq<Seq<char>>,
    short: (Result<T, SpecInterrupt>, EvalState),
    long: (Result<T, SpecInterrupt>, EvalState),
) -> bool {
    &&& grows(st, short.1)
    &&& short.1.read <= lines.len()
    &&& grows(st, long.1)
    &&& long.1.read <= lines.len() + more.len()
    &&& (!suspended(short.0) ==> long == short)
    &&& (suspended(short.0) ==> short.1.read == lines.len() && is_prefix(
        short.1.actions,
        long.1.actions,
    ))
}

/// An expression replays with more lines.
pub proof fn lemma_expression_replay(
    e: SpecExpression,
    lines: Seq<Seq<char>>,
    more: Seq<Seq<char>>,
    st: EvalState,
)
    requires
        0 <= st.read <= lines.len(),
    ensures
        replays(st, lines, more, eval_expression(e, lines, st), eval_expression(e, lines + more, st)),
    decreases e, 0nat,
{
    match e.kind {
        SpecExpressionKind::Block(b) => lemma_block_replay(*b, lines, more, st),
        SpecExpressionKind::MethodCall(m) => lemma_method_call_replay(*m, lines, more, st),
        _ => {},
    }
}

/// Statements run in order replay with more lines.
pub proof fn lemma_sequence_replay(
    stmts: Seq<SpecStatement>,
    lines: Seq<Seq<char>>,
    more: Seq<Seq<char>>,
    st: EvalState,
)
    requires
        0 <= st.read <= lines.len(),
    ensures
        replays(st, lines, more, eval_sequence(stmts, lines, st), eval_sequence(stmts, lines + more, st)),
    decreases stmts, 0nat,
{
    if stmts.len() > 0 {
        let long_lines = lines + more;
        let init = stmts.drop_last();
        lemma_sequence_replay(init, lines, more, st);
        let (r, st1) = eval_sequence(init, lines, st);
        let (rl, stl) = eval_sequence(init, long_lines, st);
        lemma_statement_replay(stmts.last(), lines, more, st1);
        lemma_statement_replay(stmts.last(), long_lines, Seq::empty(), stl);
    }
}

/// A block replays with more lines.
pub proof fn lemma_block_replay(
    b: SpecBlock,
    lines: Seq<Seq<char>>,
    more: Seq<Seq<char>>,
    st: EvalState,
)
    requires
        0 <= st.read <= lines.len(),
    ensures
        replays(st, lines, more, eval_block(b, lines, st), eval_block(b, lines + more, st)),
    decreases b, 0nat,
{
    let long_lines = lines + more;
    let st1 = EvalState { env: st.env.push(Map::empty()), ..st };
    lemma_sequence_replay(b.body, lines, more, st1);
    if let Some(x) = b.tail {
        let st2 = eval_sequence(b.body, lines, st1).1;
        let stl2 = eval_sequence(b.body, long_lines, st1).1;
        lemma_expression_replay(x, lines, more, st2);
        lemma_expression_replay(x, long_lines, Seq::empty(), stl2);
    }
}

/// A method call replays with more lines.
pub proof fn lemma_method_call_replay(
    m: SpecMethodCall,
    lines: Seq<Seq<char>>,
    more: Seq<Seq<char>>,
    st: EvalState,
)
    requires
        0 <= st.read <= lines.len(),
    ensures
        replays(st, lines, more, eval_method_call(m, lines, st), eval_method_call(m, lines + more, st)),
    decreases m, 0nat,
{
    let long_lines = lines + more;
    lemma_expression_replay(m.receiver, lines, more, st);
    let st1 = eval_expression(m.receiver, lines, st).1;
    let stl1 = eval_expression(m.receiver, long_lines, st).1;
    lemma_expression_replay(m.argument, lines, more, st1);
    lemma_expression_replay(m.argument, long_lines, Seq::empty(), stl1);
}

/// A test replays with more lines.
pub proof fn lemma_test_replay(
    t: SpecTest,
    lines: Seq<Seq<char>>,
    more: Seq<Seq<char>>,
    st: EvalState,
)
    requires
        0 <= st.read <= lines.len(),
    ensures
        replays(st, lines, more, eval_test(t, lines, st), eval_test(t, lines + more, st)),
    decreases t, 0nat,
{
    let long_lines = lines + more;
    let st1 = EvalState {
        env: st.env.push(Map::empty()),
        read: st.read,
        actions: st.actions.push(SpecAction::Print(testing_line(t.name.ident))),
    };
    lemma_expression_replay(t.command, lines, more, st1);
    let (c, st2) = eval_expression(t.command, lines, st1);
    let (cl, stl2) = eval_expression(t.command, long_lines, st1);
    if let Ok(v) = c {
        let st3 = match v {
            SpecValue::String(cmd) => spawn_state(st2, cmd),
            _ => st2,
        };
        lemma_statement_replay(*t.body, lines, more, st3);
    }
    if let Ok(v) = cl {
        let stl3 = match v {
            SpecValue::String(cmd) => spawn_state(stl2, cmd),
            _ => stl2,
        };
        lemma_statement_replay(*t.body, long_lines, Seq::empty(), stl3);
    }
}

/// A statement replays with more lines.
pub proof fn lemma_statement_replay(
    s: SpecStatement,
    lines: Seq<Seq<char>>,
    more: Seq<Seq<char>>,
    st: EvalState,
)
    requires
        0 <= st.read <= lines.len(),
    ensures
        replays(st, lines, more, eval_statement(s, lines, st), eval_statement(s, lines + more, st)),
    decreases s, 0nat,
{
    match s.kind {
        SpecStatementKind::Test(t) => lemma_test_replay(t, lines, more, st),
        SpecStatementKind::Expression(e) => lemma_expression_replay(e, lines, more, st),
    }
}

/// Statements run with their failures collected replay with more lines.
pub proof fn lemma_collect_replay(
    stmts: Seq<SpecStatement>,
    lines: Seq<Seq<char>>,
    more: Seq<Seq<char>>,
    st: EvalState,
)
    requires
        0 <= st.read <= lines.len(),
    ensures
        replays(st, lines, more, eval_collect(stmts, lines, st), eval_collect(stmts, lines + more, st)),
    decreases stmts, 0nat,
{
    if stmts.len() > 0 {
        let long_lines = lines + more;
        let init = stmts.drop_last();
        lemma_collect_replay(init, lines, more, st);
        let (r, st1) = eval_collect(init, lines, st);
        let (rl, stl) = eval_collect(init, long_lines, st);
        lemma_statement_replay(stmts.last(), lines, more, st1);
        lemma_statement_replay(stmts.last(), long_lines, Seq::empty(), stl);
    }
}

/// Running the tests of `m` again with `more` lines after `lines`: a run that did not
/// wait for a line is the same run; a run that waited had read every line it was given;
/// and the actions of the second run begin with all the actions of the first.
pub proof fn lemma_run_extends(m: SpecModule, lines: Seq<Seq<char>>, more: Seq<Seq<char>>)
    ensures
        !(run_model(m, lines).1 is NeedsLine) ==> run_model(m, lines + more) == run_model(
            m,
            lines,
        ),
        run_model(m, lines).1 is NeedsLine ==> eval_module(m, lines, initial_state()).1.read
            == lines.len(),
        is_prefix(run_model(m, lines).0, run_model(m, lines + more).0),
{
    lemma_collect_replay(m.ast, lines, more, initial_state());
}

/// `m` is a call of `expect` on the identifier `name` with the string literal `text`.
pub open spec fn expect_call(m: SpecMethodCall, name: Seq<char>, text: Seq<char>) -> bool {
    &&& m.receiver.kind matches SpecExpressionKind::Ident(i) && i.ident == name
    &&& m.method.ident == expect_name()
    &&& m.argument.kind matches SpecExpressionKind::StringLiteral(l) && l.string == text
}

/// A reference to process `p`.
pub open spec fn process_ref_value(p: usize) -> SpecValue {
    SpecValue::Reference(Box::new(SpecValue::Process(p)))
}

/// Each `expect` takes the next line and no more: two calls of `expect` on the process
/// that `name` is bound to, where the next two lines are their texts each followed by a
/// newline, both succeed; the first reads one line, the second the line after it, and
/// nothing else changes.
pub proof fn lemma_expects_read_successive_lines(
    m1: SpecMethodCall,
    m2: SpecMethodCall,
    name: Seq<char>,
    t1: Seq<char>,
    t2: Seq<char>,
    p: usize,
    lines: Seq<Seq<char>>,
    st: EvalState,
)
    requires
        expect_call(m1, name, t1),
        expect_call(m2, name, t2),
        lookup(st.env, name) == Some(Value::Process(p)),
        0 <= st.read,
        st.read + 1 < lines.len(),
        lines[st.read] == t1.push('\n'),
        lines[st.read + 1] == t2.push('\n'),
    ensures
        eval_method_call(m1, lines, st) == (
            Ok::<SpecValue, SpecInterrupt>(process_ref_value(p)),
            EvalState { read: st.read + 1, ..st },
        ),
        eval_method_call(m2, lines, EvalState { read: st.read + 1, ..st }) == (
            Ok::<SpecValue, SpecInterrupt>(process_ref_value(p)),
            EvalState { read: st.read + 2, ..st },
        ),
{
}

/// What `expect` accepts: a call of `expect` on the process that `name` is bound to
/// takes the next line, if there is one, and succeeds exactly when that line is the text
/// followed by a newline; any other line fails the test with a mismatch that holds the
/// line read and the text expected. With no line left, it waits on that process and
/// changes nothing.
pub proof fn lemma_expect_accepts_only_its_line(
    m: SpecMethodCall,
    name: Seq<char>,
    t: Seq<char>,
    p: usize,
    lines: Seq<Seq<char>>,
    st: EvalState,
)
    requires
        expect_call(m, name, t),
        lookup(st.env, name) == Some(Value::Process(p)),
        0 <= st.read <= lines.len(),
    ensures
        st.read < lines.len() ==> {
            &&& eval_method_call(m, lines, st).1 == EvalState { read: st.read + 1, ..st }
            &&& (eval_method_call(m, lines, st).0 is Ok <==> lines[st.read] == t.push('\n'))
            &&& eval_method_call(m, lines, st).0 is Ok ==> eval_method_call(m, lines, st).0
                == Ok::<SpecValue, SpecInterrupt>(process_ref_value(p))
            &&& lines[st.read] != t.push('\n') ==> (eval_method_call(m, lines, st).0 matches Err(
                SpecInterrupt::Failed(e),
            ) && e.kind == SpecRunTimeErrKind::OutputMissmatch {
                actual: lines[st.read],
                expected: t,
            })
        },
        st.read == lines.len() ==> eval_method_call(m, lines, st) == (
            Err::<SpecValue, SpecInterrupt>(SpecInterrupt::NeedsLine(p)),
            st,
        ),
{
}

/// `a` starts the program of `cmd` as process `p`: the program and its arguments, joined
/// with spaces, give back `cmd` entire, and none of them holds a space.
pub open spec fn starts_command(a: SpecAction, p: int, cmd: Seq<char>) -> bool {
    match a {
        SpecAction::Spawn { process, program, args } => {
            let words = seq![program] + args;
            &&& process == p
            &&& join_spaces(words) == cmd
            &&& forall|i: int, k: int|
                0 <= i < words.len() && 0 <= k < words[i].len() ==> #[trigger] words[i][k] != ' '
        },
        _ => false,
    }
}

/// Starting a command records one action, which starts the whole command `cmd` (its
/// first word as the program, every other word in order as an argument) as the process
/// named by that action's index, and binds `self` to that process in the innermost frame.
pub proof fn lemma_spawn_starts_whole_command(st: EvalState, cmd: Seq<char>)
    requires
        st.actions.len() < usize::MAX,
        st.env.len() > 0,
    ensures
        spawn_state(st, cmd).actions.len() == st.actions.len() + 1,
        spawn_state(st, cmd).actions.drop_last() == st.actions,
        starts_command(spawn_state(st, cmd).actions.last(), st.actions.len() as int, cmd),
        lookup(spawn_state(st, cmd).env, self_name())
            == Some(Value::Process(st.actions.len() as usize)),
{
    let pieces = split_spaces(cmd);
    lemma_split_spaces_join(cmd);
    assert(seq![pieces[0]] + pieces.drop_first() =~= pieces);
    assert(spawn_state(st, cmd).actions.drop_last() =~= st.actions);
}

/// A test whose command is a string literal announces itself and then starts that whole
/// command: the program is its first word and every other word, in order, is passed as
/// an argument, whatever the body of the test then does.
pub proof fn lemma_test_starts_its_whole_command(t: SpecTest, lines: Seq<Seq<char>>, st: EvalState)
    requires
        t.command.kind is StringLiteral,
        0 <= st.read <= lines.len(),
        st.actions.len() + 1 < usize::MAX,
    ensures
        eval_test(t, lines, st).1.actions.len() >= st.actions.len() + 2,
        eval_test(t, lines, st).1.actions[st.actions.len() as int] == SpecAction::Print(
            testing_line(t.name.ident),
        ),
        starts_command(
            eval_test(t, lines, st).1.actions[st.actions.len() as int + 1],
            st.actions.len() as int + 1,
            t.command.kind->StringLiteral_0.string,
        ),
{
    let cmd = t.command.kind->StringLiteral_0.string;
    let st1 = EvalState {
        env: st.env.push(Map::empty()),
        read: st.read,
        actions: st.actions.push(SpecAction::Print(testing_line(t.name.ident))),
    };
    assert(eval_expression(t.command, lines, st1) == (
        Ok::<SpecValue, SpecInterrupt>(SpecValue::String(cmd)),
        st1,
    ));
    let st3 = spawn_state(st1, cmd);
    let pieces = split_spaces(cmd);
    lemma_split_spaces_join(cmd);
    assert(seq![pieces[0]] + pieces.drop_first() =~= pieces);
    lemma_statement_replay(*t.body, lines, Seq::empty(), st3);
    let n = st.actions.len() as int;
    assert(st3.actions[n] == SpecAction::Print(testing_line(t.name.ident)));
    assert(starts_command(st3.actions[n + 1], n + 1, cmd));
}

} // verus!
