//! Processes are named by the index of the action that started them: every action and
//! every wait for a line that names a process names one that an earlier action started.
use vstd::prelude::*;

use crate::ast::{
    SpecBlock, SpecExpression, SpecExpressionKind, SpecMethodCall, SpecModule, SpecStatement,
    SpecStatementKind, SpecTest,
};
use crate::environment::lookup;
use crate::eval::{
    EvalState, SpecAction, SpecInterrupt, SpecOutcome, SpecValue, eval_block, eval_collect,
    eval_expression, eval_method_call, eval_sequence, eval_statement, eval_test, initial_state,
    lemma_eval_expression_depth, lemma_eval_statement_depth, run_model, spawn_state, testing_line,
    value_view,
};
use crate::replay::{
    is_prefix, lemma_collect_replay, lemma_expression_replay, lemma_method_call_replay,
    lemma_sequence_replay, lemma_statement_replay, lemma_test_replay,
};
use crate::types::Value;

verus! {

/// The action at index `p` started process `p`.
pub open spec fn started(actions: Seq<SpecAction>, p: usize) -> bool {
    &&& (p as int) < actions.len()
    &&& actions[p as int] matches SpecAction::Spawn { process, .. } && process == p
}

/// Every process that the value names was started.
pub open spec fn value_started(v: SpecValue, actions: Seq<SpecAction>) -> bool
    decreases v,
{
    match v {
        SpecValue::Process(p) => started(actions, p),
        SpecValue::Reference(inner) => value_started(*inner, actions),
        _ => true,
    }
}

/// Every process bound in the scopes was started.
pub open spec fn scopes_started(env: Seq<Map<Seq<char>, Value>>, actions: Seq<SpecAction>) -> bool {
    forall|i: int, k: Seq<char>|
        0 <= i < env.len() && #[trigger] env[i].contains_key(k) ==> value_started(
            value_view(env[i][k]),
            actions,
        )
}

/// Each action that starts a process names it by its own index, and each write goes to a
/// process that an earlier action started.
pub open spec fn actions_well_formed(actions: Seq<SpecAction>) -> bool {
    forall|i: int|
        0 <= i < actions.len() ==> match #[trigger] actions[i] {
            SpecAction::Spawn { process, .. } => process == i,
            SpecAction::Send { process, .. } => process < i && started(actions, process),
            SpecAction::Print(_) => true,
        }
}

/// Every process that the scopes bind was started, and the actions are well formed.
pub open spec fn sound(st: EvalState) -> bool {
    scopes_started(st.env, st.actions) && actions_well_formed(st.actions)
}

/// The actions fit in a `Vec`: their number is at most `usize::MAX`.
pub open spec fn fits(st: EvalState) -> bool {
    st.actions.len() <= usize::MAX
}

/// A value names only started processes; a wait names a started process.
pub open spec fn gives_started(r: Result<SpecValue, SpecInterrupt>, actions: Seq<SpecAction>) -> bool {
    match r {
        Ok(v) => value_started(v, actions),
        Err(SpecInterrupt::NeedsLine(p)) => started(actions, p),
        _ => true,
    }
}

/// A wait, if any, is on a started process.
pub open spec fn waits_on_started<T>(r: Result<T, SpecInterrupt>, actions: Seq<SpecAction>) -> bool {
    r matches Err(SpecInterrupt::NeedsLine(p)) ==> started(actions, p)
}

proof fn lemma_value_started_grows(v: SpecValue, a: Seq<SpecAction>, b: Seq<SpecAction>)
    requires
        value_started(v, a),
        is_prefix(a, b),
    ensures
        value_started(v, b),
    decreases v,
{
    match v {
        SpecValue::Process(p) => {
            assert(b[p as int] == a[p as int]);
        },
        SpecValue::Reference(inner) => lemma_value_started_grows(*inner, a, b),
        _ => {},
    }
}

proof fn lemma_scopes_started_grows(
    env: Seq<Map<Seq<char>, Value>>,
    a: Seq<SpecAction>,
    b: Seq<SpecAction>,
)
    requires
        scopes_started(env, a),
        is_prefix(a, b),
    ensures
        scopes_started(env, b),
{
    assert forall|i: int, k: Seq<char>| 0 <= i < env.len() && #[trigger] env[i].contains_key(
        k,
    ) implies value_started(value_view(env[i][k]), b) by {
        lemma_value_started_grows(value_view(env[i][k]), a, b);
    }
}

/// Appending an action that starts nothing, or that writes to a started process, keeps
/// the state sound.
proof fn lemma_push_action(st: EvalState, a: SpecAction)
    requires
        sound(st),
        match a {
            SpecAction::Spawn { process, .. } => process == st.actions.len(),
            SpecAction::Send { process, .. } => started(st.actions, process),
            SpecAction::Print(_) => true,
        },
        st.actions.len() < usize::MAX,
    ensures
        sound(EvalState { actions: st.actions.push(a), ..st }),
        is_prefix(st.actions, st.actions.push(a)),
{
    let b = st.actions.push(a);
    assert(is_prefix(st.actions, b));
    lemma_scopes_started_grows(st.env, st.actions, b);
    assert forall|i: int| 0 <= i < b.len() implies match #[trigger] b[i] {
        SpecAction::Spawn { process, .. } => process == i,
        SpecAction::Send { process, .. } => process < i && started(b, process),
        SpecAction::Print(_) => true,
    } by {
        if i < st.actions.len() {
            assert(b[i] == st.actions[i]);
            if let SpecAction::Send { process, .. } = st.actions[i] {
                assert(b[process as int] == st.actions[process as int]);
            }
        } else {
            if let SpecAction::Send { process, .. } = a {
                assert(b[process as int] == st.actions[process as int]);
            }
        }
    }
}

proof fn lemma_lookup_found<V>(stack: Seq<Map<Seq<char>, V>>, name: Seq<char>)
    ensures
        lookup(stack, name) matches Some(v) ==> exists|i: int|
            0 <= i < stack.len() && #[trigger] stack[i].contains_key(name) && stack[i][name] == v,
    decreases stack.len(),
{
    if stack.len() > 0 {
        if stack.last().contains_key(name) {
            assert(stack[stack.len() - 1].contains_key(name));
        } else {
            lemma_lookup_found(stack.drop_last(), name);
            if lookup(stack.drop_last(), name) is Some {
                let i = choose|i: int|
                    0 <= i < stack.drop_last().len() && #[trigger] stack.drop_last()[i].contains_key(
                        name,
                    ) && stack.drop_last()[i][name] == lookup(stack.drop_last(), name)->Some_0;
                assert(stack[i] == stack.drop_last()[i]);
            }
        }
    }
}

/// Opening an empty frame keeps the scopes sound.
proof fn lemma_push_frame(st: EvalState)
    requires
        sound(st),
    ensures
        sound(EvalState { env: st.env.push(Map::empty()), ..st }),
{
    let env = st.env.push(Map::empty());
    assert forall|i: int, k: Seq<char>| 0 <= i < env.len() && #[trigger] env[i].contains_key(
        k,
    ) implies value_started(value_view(env[i][k]), st.actions) by {
        assert(i < st.env.len());
        assert(env[i] == st.env[i]);
    }
}

/// Closing the innermost frame keeps the scopes sound.
proof fn lemma_pop_frame(st: EvalState)
    requires
        sound(st),
        st.env.len() > 0,
    ensures
        sound(EvalState { env: st.env.drop_last(), ..st }),
{
    let env = st.env.drop_last();
    assert forall|i: int, k: Seq<char>| 0 <= i < env.len() && #[trigger] env[i].contains_key(
        k,
    ) implies value_started(value_view(env[i][k]), st.actions) by {
        assert(env[i] == st.env[i]);
    }
}

/// Starting a command keeps the state sound.
proof fn lemma_spawn(st: EvalState, cmd: Seq<char>)
    requires
        sound(st),
        st.env.len() > 0,
        st.actions.len() < usize::MAX,
    ensures
        sound(spawn_state(st, cmd)),
        is_prefix(st.actions, spawn_state(st, cmd).actions),
{
    let st2 = spawn_state(st, cmd);
    let p = st.actions.len() as usize;
    let a = st2.actions.last();
    assert(st2.actions == st.actions.push(a));
    lemma_push_action(st, a);
    let st1 = EvalState { actions: st.actions.push(a), ..st };
    assert(started(st2.actions, p));
    let env = st2.env;
    assert forall|i: int, k: Seq<char>| 0 <= i < env.len() && #[trigger] env[i].contains_key(
        k,
    ) implies value_started(value_view(env[i][k]), st2.actions) by {
        if i < st.env.len() - 1 {
            assert(env[i] == st.env[i]);
        } else if k != crate::check::self_name() {
            assert(env[i] == st.env.last().insert(crate::check::self_name(), Value::Process(p)));
            assert(st.env[i].contains_key(k));
            assert(env[i][k] == st.env[i][k]);
        }
    }
}

/// Running an expression from a sound state gives a sound state and names only started
/// processes (while the actions fit in a `Vec`).
pub proof fn lemma_expression_sound(e: SpecExpression, lines: Seq<Seq<char>>, st: EvalState)
    requires
        sound(st),
        0 <= st.read <= lines.len(),
    ensures
        fits(eval_expression(e, lines, st).1) ==> sound(eval_expression(e, lines, st).1)
            && gives_started(eval_expression(e, lines, st).0, eval_expression(e, lines, st).1.actions),
    decreases e,
{
    match e.kind {
        SpecExpressionKind::Block(b) => lemma_block_sound(*b, lines, st),
        SpecExpressionKind::MethodCall(m) => lemma_method_call_sound(*m, lines, st),
        SpecExpressionKind::Ident(i) => {
            lemma_lookup_found(st.env, i.ident);
        },
        _ => {},
    }
}

/// Running statements from a sound state gives a sound state
/// (while the actions fit in a `Vec`).
pub proof fn lemma_sequence_sound(stmts: Seq<SpecStatement>, lines: Seq<Seq<char>>, st: EvalState)
    requires
        sound(st),
        0 <= st.read <= lines.len(),
    ensures
        fits(eval_sequence(stmts, lines, st).1) ==> sound(eval_sequence(stmts, lines, st).1)
            && waits_on_started(
            eval_sequence(stmts, lines, st).0,
            eval_sequence(stmts, lines, st).1.actions,
        ),
    decreases stmts,
{
    if stmts.len() > 0 {
        let init = stmts.drop_last();
        lemma_sequence_sound(init, lines, st);
        lemma_sequence_replay(init, lines, Seq::empty(), st);
        let st1 = eval_sequence(init, lines, st).1;
        lemma_statement_replay(stmts.last(), lines, Seq::empty(), st1);
        if fits(eval_sequence(stmts, lines, st).1) {
            assert(fits(st1));
            if eval_sequence(init, lines, st).0 is Ok {
                lemma_statement_sound(stmts.last(), lines, st1);
            }
        }
    }
}

/// Running a block from a sound state gives a sound state
/// (while the actions fit in a `Vec`).
pub proof fn lemma_block_sound(b: SpecBlock, lines: Seq<Seq<char>>, st: EvalState)
    requires
        sound(st),
        0 <= st.read <= lines.len(),
    ensures
        fits(eval_block(b, lines, st).1) ==> sound(eval_block(b, lines, st).1) && gives_started(
            eval_block(b, lines, st).0,
            eval_block(b, lines, st).1.actions,
        ),
    decreases b,
{
    let st1 = EvalState { env: st.env.push(Map::empty()), ..st };
    lemma_push_frame(st);
    lemma_sequence_sound(b.body, lines, st1);
    lemma_sequence_replay(b.body, lines, Seq::empty(), st1);
    if let Some(x) = b.tail {
        let st2 = eval_sequence(b.body, lines, st1).1;
        lemma_expression_replay(x, lines, Seq::empty(), st2);
        if fits(eval_block(b, lines, st).1) && eval_sequence(b.body, lines, st1).0 is Ok {
            assert(fits(st2));
            lemma_expression_sound(x, lines, st2);
        }
    }
}

/// Running a method call from a sound state gives a sound state
/// (while the actions fit in a `Vec`).
pub proof fn lemma_method_call_sound(m: SpecMethodCall, lines: Seq<Seq<char>>, st: EvalState)
    requires
        sound(st),
        0 <= st.read <= lines.len(),
    ensures
        fits(eval_method_call(m, lines, st).1) ==> sound(eval_method_call(m, lines, st).1)
            && gives_started(eval_method_call(m, lines, st).0, eval_method_call(m, lines, st).1.actions),
    decreases m,
{
    lemma_expression_sound(m.receiver, lines, st);
    lemma_expression_replay(m.receiver, lines, Seq::empty(), st);
    let (r, st1) = eval_expression(m.receiver, lines, st);
    if let Ok(recv) = r {
        lemma_expression_replay(m.argument, lines, Seq::empty(), st1);
        lemma_method_call_replay(m, lines, Seq::empty(), st);
        let (a, st2) = eval_expression(m.argument, lines, st1);
        let fin = eval_method_call(m, lines, st).1;
        if fits(fin) {
            assert(fits(st2));
            assert(fits(st1));
            lemma_expression_sound(m.argument, lines, st1);
            lemma_value_started_grows(recv, st1.actions, st2.actions);
            if let Ok(SpecValue::String(s)) = a {
                if let SpecValue::Reference(inner) = recv {
                    if let SpecValue::Process(p) = *inner {
                        assert(value_started(*inner, st2.actions));
                        assert(started(st2.actions, p));
                        if m.method.ident == crate::check::send_name() {
                            let send = SpecAction::Send { process: p, text: s.push('\n') };
                            assert(fin.actions == st2.actions.push(send));
                            lemma_push_action(st2, send);
                            lemma_value_started_grows(recv, st2.actions, st2.actions.push(send));
                        }
                    }
                }
            }
        }
    }
}

/// Running a test from a sound state gives a sound state
/// (while the actions fit in a `Vec`).
pub proof fn lemma_test_sound(t: SpecTest, lines: Seq<Seq<char>>, st: EvalState)
    requires
        sound(st),
        0 <= st.read <= lines.len(),
    ensures
        fits(eval_test(t, lines, st).1) ==> sound(eval_test(t, lines, st).1) && gives_started(
            eval_test(t, lines, st).0,
            eval_test(t, lines, st).1.actions,
        ),
    decreases t,
{
    lemma_test_replay(t, lines, Seq::empty(), st);
    let fin = eval_test(t, lines, st).1;
    if fits(fin) {
        let print = SpecAction::Print(testing_line(t.name.ident));
        let st1 = EvalState {
            env: st.env.push(Map::empty()),
            read: st.read,
            actions: st.actions.push(print),
        };
        lemma_expression_replay(t.command, lines, Seq::empty(), st1);
        let (c, st2) = eval_expression(t.command, lines, st1);
        // every later state extends st2, so its actions fit too
        assert(fits(st2)) by {
            if let Ok(v) = c {
                let st3 = match v {
                    SpecValue::String(cmd) => spawn_state(st2, cmd),
                    _ => st2,
                };
                lemma_statement_replay(*t.body, lines, Seq::empty(), st3);
            }
        }
        lemma_push_action(st, print);
        let st0 = EvalState { actions: st.actions.push(print), ..st };
        lemma_push_frame(st0);
        lemma_expression_sound(t.command, lines, st1);
        lemma_eval_expression_depth(t.command, lines, st1);
        if let Ok(v) = c {
            let st3 = match v {
                SpecValue::String(cmd) => spawn_state(st2, cmd),
                _ => st2,
            };
            lemma_statement_replay(*t.body, lines, Seq::empty(), st3);
            let st4 = eval_statement(*t.body, lines, st3).1;
            assert(fits(st4));
            if let SpecValue::String(cmd) = v {
                lemma_spawn(st2, cmd);
            }
            lemma_statement_sound(*t.body, lines, st3);
            lemma_eval_statement_depth(*t.body, lines, st3);
            lemma_pop_frame(st4);
        }
    }
}

/// Running a statement from a sound state gives a sound state
/// (while the actions fit in a `Vec`).
pub proof fn lemma_statement_sound(s: SpecStatement, lines: Seq<Seq<char>>, st: EvalState)
    requires
        sound(st),
        0 <= st.read <= lines.len(),
    ensures
        fits(eval_statement(s, lines, st).1) ==> sound(eval_statement(s, lines, st).1)
            && gives_started(eval_statement(s, lines, st).0, eval_statement(s, lines, st).1.actions),
    decreases s,
{
    match s.kind {
        SpecStatementKind::Test(t) => lemma_test_sound(t, lines, st),
        SpecStatementKind::Expression(e) => lemma_expression_sound(e, lines, st),
    }
}

/// Running statements and collecting failures from a sound state gives a sound state
/// (while the actions fit in a `Vec`).
pub proof fn lemma_collect_sound(stmts: Seq<SpecStatement>, lines: Seq<Seq<char>>, st: EvalState)
    requires
        sound(st),
        0 <= st.read <= lines.len(),
    ensures
        fits(eval_collect(stmts, lines, st).1) ==> sound(eval_collect(stmts, lines, st).1)
            && waits_on_started(
            eval_collect(stmts, lines, st).0,
            eval_collect(stmts, lines, st).1.actions,
        ),
    decreases stmts,
{
    if stmts.len() > 0 {
        let init = stmts.drop_last();
        lemma_collect_sound(init, lines, st);
        lemma_collect_replay(init, lines, Seq::empty(), st);
        let st1 = eval_collect(init, lines, st).1;
        lemma_statement_replay(stmts.last(), lines, Seq::empty(), st1);
        if fits(eval_collect(stmts, lines, st).1) {
            assert(fits(st1));
            if eval_collect(init, lines, st).0 is Ok {
                lemma_statement_sound(stmts.last(), lines, st1);
            }
        }
    }
}

/// In a run of the tests of `m` whose actions fit in a `Vec`, each action that starts a
/// process names it by its own index, each write goes to a process that an earlier
/// action started, and a run that waits for a line waits on a process that one of its
/// actions started.
pub proof fn lemma_run_names_started_processes(m: SpecModule, lines: Seq<Seq<char>>)
    requires
        run_model(m, lines).0.len() <= usize::MAX,
    ensures
        actions_well_formed(run_model(m, lines).0),
        run_model(m, lines).1 matches SpecOutcome::NeedsLine(p) ==> started(run_model(m, lines).0, p),
{
    lemma_collect_sound(m.ast, lines, initial_state());
}

} // verus!
