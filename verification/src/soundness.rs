//! What type checking rules out of a run: an unbound identifier, an argument that is not
//! a string, a receiver that is not a process and an unknown method. The scopes that the
//! checker threads and the scopes that a run threads correspond while no test fails.
use vstd::prelude::*;

use crate::ast::{
    SpecBlock, SpecExpression, SpecExpressionKind, SpecMethodCall, SpecModule, SpecStatement,
    SpecStatementKind, SpecTest,
};
use crate::check::{
    bind_innermost, check_block, check_collect, check_expression, check_method_call,
    check_module, check_statement, check_test, lemma_check_expression_depth, process_ref,
    self_name,
};
use crate::environment::lookup;
use crate::eval::{
    EvalState, Halt, SpecAction, SpecInterrupt, SpecOutcome, SpecValue, eval_block, eval_collect,
    eval_expression, eval_method_call, eval_sequence, eval_statement, eval_test, initial_state,
    run_model, spawn_state, testing_line, value_view,
};
use crate::error::SpecRunTimeErr;
use crate::types::{Type, Value};

verus! {

/// The value `v` has the type `t`.
pub open spec fn has_type(v: SpecValue, t: Type) -> bool
    decreases v,
{
    match v {
        SpecValue::String(_) => t == Type::String,
        SpecValue::Process(_) => t == Type::Process,
        SpecValue::Reference(inner) => match t {
            Type::Reference(ti) => has_type(*inner, *ti),
            _ => false,
        },
        SpecValue::Void => t == Type::Void,
    }
}

/// The scopes of a run match the scopes of the checker: the same frames, binding the same
/// names, each to a value of the type that the checker gave it.
pub open spec fn scopes_match(tenv: Seq<Map<Seq<char>, Type>>, venv: Seq<Map<Seq<char>, Value>>) -> bool {
    &&& tenv.len() == venv.len()
    &&& forall|i: int| 0 <= i < tenv.len() ==> (#[trigger] tenv[i]).dom() == venv[i].dom()
    &&& forall|i: int, k: Seq<char>|
        0 <= i < tenv.len() && #[trigger] tenv[i].contains_key(k) ==> has_type(
            value_view(venv[i][k]),
            tenv[i][k],
        )
}

/// The evaluation stopped on none of the cases that type checking rules out.
pub open spec fn no_type_halt<T>(r: Result<T, SpecInterrupt>) -> bool {
    !(r matches Err(SpecInterrupt::Halted(h)) && h != Halt::ArgumentFailed)
}

/// A value of type `t` with scopes that match `tenv`, or a stop that typing does not rule out.
pub open spec fn typed(
    r: Result<SpecValue, SpecInterrupt>,
    t: Type,
    tenv: Seq<Map<Seq<char>, Type>>,
    venv: Seq<Map<Seq<char>, Value>>,
) -> bool {
    match r {
        Ok(v) => has_type(v, t) && scopes_match(tenv, venv),
        Err(_) => no_type_halt(r),
    }
}

proof fn lemma_lookup_typed(tenv: Seq<Map<Seq<char>, Type>>, venv: Seq<Map<Seq<char>, Value>>, name: Seq<char>)
    requires
        scopes_match(tenv, venv),
    ensures
        lookup(tenv, name) matches Some(t) ==> (lookup(venv, name) matches Some(v) && has_type(
            value_view(v),
            t,
        )),
    decreases tenv.len(),
{
    if tenv.len() > 0 {
        let n = tenv.len() - 1;
        assert(tenv[n].dom() == venv[n].dom());
        if tenv.last().contains_key(name) {
            assert(tenv[n].contains_key(name));
            assert(venv.last().contains_key(name));
        } else {
            assert(!venv.last().contains_key(name));
            let t2 = tenv.drop_last();
            let v2 = venv.drop_last();
            assert forall|i: int| 0 <= i < t2.len() implies (#[trigger] t2[i]).dom() == v2[i].dom() by {
                assert(t2[i] == tenv[i]);
                assert(v2[i] == venv[i]);
            }
            assert forall|i: int, k: Seq<char>|
                0 <= i < t2.len() && #[trigger] t2[i].contains_key(k) implies has_type(
                value_view(v2[i][k]),
                t2[i][k],
            ) by {
                assert(t2[i] == tenv[i]);
                assert(v2[i] == venv[i]);
            }
            lemma_lookup_typed(t2, v2, name);
        }
    }
}

proof fn lemma_match_push(tenv: Seq<Map<Seq<char>, Type>>, venv: Seq<Map<Seq<char>, Value>>)
    requires
        scopes_match(tenv, venv),
    ensures
        scopes_match(tenv.push(Map::empty()), venv.push(Map::empty())),
{
    let t2 = tenv.push(Map::empty());
    let v2 = venv.push(Map::empty());
    assert forall|i: int| 0 <= i < t2.len() implies (#[trigger] t2[i]).dom() == v2[i].dom() by {
        if i < tenv.len() {
            assert(t2[i] == tenv[i]);
            assert(v2[i] == venv[i]);
        } else {
            assert(t2[i].dom() =~= v2[i].dom());
        }
    }
    assert forall|i: int, k: Seq<char>|
        0 <= i < t2.len() && #[trigger] t2[i].contains_key(k) implies has_type(
        value_view(v2[i][k]),
        t2[i][k],
    ) by {
        assert(i < tenv.len());
        assert(t2[i] == tenv[i]);
        assert(v2[i] == venv[i]);
    }
}

proof fn lemma_match_pop(tenv: Seq<Map<Seq<char>, Type>>, venv: Seq<Map<Seq<char>, Value>>)
    requires
        scopes_match(tenv, venv),
        tenv.len() > 0,
    ensures
        scopes_match(tenv.drop_last(), venv.drop_last()),
{
    let t2 = tenv.drop_last();
    let v2 = venv.drop_last();
    assert forall|i: int| 0 <= i < t2.len() implies (#[trigger] t2[i]).dom() == v2[i].dom() by {
        assert(t2[i] == tenv[i]);
        assert(v2[i] == venv[i]);
    }
    assert forall|i: int, k: Seq<char>|
        0 <= i < t2.len() && #[trigger] t2[i].contains_key(k) implies has_type(
        value_view(v2[i][k]),
        t2[i][k],
    ) by {
        assert(t2[i] == tenv[i]);
        assert(v2[i] == venv[i]);
    }
}

proof fn lemma_match_bind(tenv: Seq<Map<Seq<char>, Type>>, venv: Seq<Map<Seq<char>, Value>>, p: usize)
    requires
        scopes_match(tenv, venv),
        tenv.len() > 0,
    ensures
        scopes_match(
            bind_innermost(tenv, self_name(), Type::Process),
            venv.update(venv.len() - 1, venv.last().insert(self_name(), Value::Process(p))),
        ),
{
    let n = tenv.len() - 1;
    let t2 = bind_innermost(tenv, self_name(), Type::Process);
    let v2 = venv.update(venv.len() - 1, venv.last().insert(self_name(), Value::Process(p)));
    assert forall|i: int| 0 <= i < t2.len() implies (#[trigger] t2[i]).dom() == v2[i].dom() by {
        if i < n {
            assert(t2[i] == tenv[i]);
            assert(v2[i] == venv[i]);
        } else {
            assert(tenv[n].dom() == venv[n].dom());
            assert(t2[i].dom() =~= v2[i].dom());
        }
    }
    assert forall|i: int, k: Seq<char>|
        0 <= i < t2.len() && #[trigger] t2[i].contains_key(k) implies has_type(
        value_view(v2[i][k]),
        t2[i][k],
    ) by {
        if i < n {
            assert(t2[i] == tenv[i]);
            assert(v2[i] == venv[i]);
        } else if k != self_name() {
            assert(tenv[n].contains_key(k));
            assert(t2[i][k] == tenv[n][k]);
            assert(v2[i][k] == venv[n][k]);
        }
    }
}

/// A well-typed expression, run in scopes that match the types, gives a value of its type
/// in matching scopes, or stops on a case that typing does not rule out.
pub proof fn lemma_expression_typed(
    e: SpecExpression,
    tenv: Seq<Map<Seq<char>, Type>>,
    lines: Seq<Seq<char>>,
    st: EvalState,
)
    requires
        scopes_match(tenv, st.env),
        check_expression(e, tenv).0 is Ok,
    ensures
        typed(
            eval_expression(e, lines, st).0,
            check_expression(e, tenv).0->Ok_0,
            check_expression(e, tenv).1,
            eval_expression(e, lines, st).1.env,
        ),
    decreases e,
{
    match e.kind {
        SpecExpressionKind::Block(b) => lemma_block_typed(*b, tenv, lines, st),
        SpecExpressionKind::MethodCall(m) => lemma_method_call_typed(*m, tenv, lines, st),
        SpecExpressionKind::Ident(i) => lemma_lookup_typed(tenv, st.env, i.ident),
        SpecExpressionKind::StringLiteral(_) => {},
    }
}

/// Well-typed statements run in order keep the scopes matching the types, or stop on a
/// case that typing does not rule out.
pub proof fn lemma_sequence_typed(
    stmts: Seq<SpecStatement>,
    tenv: Seq<Map<Seq<char>, Type>>,
    lines: Seq<Seq<char>>,
    st: EvalState,
)
    requires
        scopes_match(tenv, st.env),
        check_collect(stmts, tenv).0.len() == 0,
    ensures
        match eval_sequence(stmts, lines, st).0 {
            Ok(_) => scopes_match(check_collect(stmts, tenv).1, eval_sequence(stmts, lines, st).1.env),
            Err(_) => no_type_halt(eval_sequence(stmts, lines, st).0),
        },
    decreases stmts,
{
    if stmts.len() > 0 {
        let init = stmts.drop_last();
        let (errs, tenv1) = check_collect(init, tenv);
        assert(errs.len() == 0 && check_statement(stmts.last(), tenv1).0 is Ok) by {
            if check_statement(stmts.last(), tenv1).0 is Err {
                assert(check_collect(stmts, tenv).0.len() == errs.len() + 1);
            }
        }
        lemma_sequence_typed(init, tenv, lines, st);
        let (r, st1) = eval_sequence(init, lines, st);
        if r is Ok {
            lemma_statement_typed(stmts.last(), tenv1, lines, st1);
        }
    }
}

/// A well-typed block, run in scopes that match the types, gives a value of its type in
/// matching scopes, or stops on a case that typing does not rule out.
pub proof fn lemma_block_typed(
    b: SpecBlock,
    tenv: Seq<Map<Seq<char>, Type>>,
    lines: Seq<Seq<char>>,
    st: EvalState,
)
    requires
        scopes_match(tenv, st.env),
        check_block(b, tenv).0 is Ok,
    ensures
        typed(
            eval_block(b, lines, st).0,
            check_block(b, tenv).0->Ok_0,
            check_block(b, tenv).1,
            eval_block(b, lines, st).1.env,
        ),
    decreases b,
{
    let t0 = tenv.push(Map::empty());
    let st1 = EvalState { env: st.env.push(Map::empty()), ..st };
    lemma_match_push(tenv, st.env);
    let (errs, tenv1) = check_collect(b.body, t0);
    if let Some(x) = b.tail {
        if check_expression(x, tenv1).0 is Err {
            assert(errs.push(check_expression(x, tenv1).0->Err_0).len() > 0);
        }
    }
    assert(errs.len() == 0);
    lemma_sequence_typed(b.body, t0, lines, st1);
    if let Some(x) = b.tail {
        let st2 = eval_sequence(b.body, lines, st1).1;
        if eval_sequence(b.body, lines, st1).0 is Ok {
            lemma_expression_typed(x, tenv1, lines, st2);
        }
    }
}

/// A well-typed method call, run in scopes that match the types, gives a value of its type in
/// matching scopes, or stops on a case that typing does not rule out.
pub proof fn lemma_method_call_typed(
    m: SpecMethodCall,
    tenv: Seq<Map<Seq<char>, Type>>,
    lines: Seq<Seq<char>>,
    st: EvalState,
)
    requires
        scopes_match(tenv, st.env),
        check_method_call(m, tenv).0 is Ok,
    ensures
        typed(
            eval_method_call(m, lines, st).0,
            check_method_call(m, tenv).0->Ok_0,
            check_method_call(m, tenv).1,
            eval_method_call(m, lines, st).1.env,
        ),
    decreases m,
{
    let (rt, tenv1) = check_expression(m.receiver, tenv);
    lemma_expression_typed(m.receiver, tenv, lines, st);
    let tr = rt->Ok_0;
    assert(tr == process_ref()) by {
        match tr {
            Type::Reference(inner) => {},
            _ => {},
        }
    }
    let (r, st1) = eval_expression(m.receiver, lines, st);
    if let Ok(recv) = r {
        lemma_expression_typed(m.argument, tenv1, lines, st1);
        let (a, st2) = eval_expression(m.argument, lines, st1);
        if let SpecValue::Reference(inner) = recv {
            assert(has_type(*inner, Type::Process));
        }
    }
}

/// A well-typed test, run in scopes that match the types, gives a value of its type in
/// matching scopes, or stops on a case that typing does not rule out.
pub proof fn lemma_test_typed(
    t: SpecTest,
    tenv: Seq<Map<Seq<char>, Type>>,
    lines: Seq<Seq<char>>,
    st: EvalState,
)
    requires
        scopes_match(tenv, st.env),
        check_test(t, tenv).0 is Ok,
    ensures
        typed(
            eval_test(t, lines, st).0,
            check_test(t, tenv).0->Ok_0,
            check_test(t, tenv).1,
            eval_test(t, lines, st).1.env,
        ),
    decreases t,
{
    let t0 = tenv.push(Map::empty());
    let st1 = EvalState {
        env: st.env.push(Map::empty()),
        read: st.read,
        actions: st.actions.push(SpecAction::Print(testing_line(t.name.ident))),
    };
    lemma_match_push(tenv, st.env);
    lemma_check_expression_depth(t.command, t0);
    let (c, tenv1) = check_expression(t.command, t0);
    lemma_expression_typed(t.command, t0, lines, st1);
    let (cv, st2) = eval_expression(t.command, lines, st1);
    if let Ok(v) = cv {
        let cmd = v->String_0;
        lemma_match_bind(tenv1, st2.env, st2.actions.len() as usize);
        let st3 = spawn_state(st2, cmd);
        let tenv2 = bind_innermost(tenv1, self_name(), Type::Process);
        lemma_statement_typed(*t.body, tenv2, lines, st3);
        let (rb, tenv3) = check_statement(*t.body, tenv2);
        let (r, st4) = eval_statement(*t.body, lines, st3);
        if r is Ok {
            crate::check::lemma_check_statement_depth(*t.body, tenv2);
            lemma_match_pop(tenv3, st4.env);
        }
    }
}

/// A well-typed statement, run in scopes that match the types, gives a value of its type in
/// matching scopes, or stops on a case that typing does not rule out.
pub proof fn lemma_statement_typed(
    s: SpecStatement,
    tenv: Seq<Map<Seq<char>, Type>>,
    lines: Seq<Seq<char>>,
    st: EvalState,
)
    requires
        scopes_match(tenv, st.env),
        check_statement(s, tenv).0 is Ok,
    ensures
        typed(
            eval_statement(s, lines, st).0,
            Type::Void,
            check_statement(s, tenv).1,
            eval_statement(s, lines, st).1.env,
        ),
    decreases s,
{
    match s.kind {
        SpecStatementKind::Test(t) => lemma_test_typed(t, tenv, lines, st),
        SpecStatementKind::Expression(e) => lemma_expression_typed(e, tenv, lines, st),
    }
}

/// Statements ran and some of them failed tests.
pub open spec fn some_failed(r: Result<Seq<SpecRunTimeErr>, SpecInterrupt>) -> bool {
    r matches Ok(errs) && errs.len() > 0
}

/// Some of the first `k` statements, for a `k` up to `n`, failed tests.
pub open spec fn failed_before(stmts: Seq<SpecStatement>, lines: Seq<Seq<char>>, st: EvalState, n: int) -> bool {
    exists|k: int| 0 <= k <= n && some_failed(#[trigger] eval_collect(stmts.take(k), lines, st).0)
}

/// Well-typed statements run with their failures collected keep the scopes matching while
/// none fails, and stop on a case that typing rules out only after a failed test.
pub proof fn lemma_collect_typed(
    stmts: Seq<SpecStatement>,
    tenv: Seq<Map<Seq<char>, Type>>,
    lines: Seq<Seq<char>>,
    st: EvalState,
)
    requires
        scopes_match(tenv, st.env),
        check_collect(stmts, tenv).0.len() == 0,
    ensures
        match eval_collect(stmts, lines, st).0 {
            Ok(errs) => errs.len() == 0 ==> scopes_match(
                check_collect(stmts, tenv).1,
                eval_collect(stmts, lines, st).1.env,
            ),
            Err(_) => no_type_halt(eval_collect(stmts, lines, st).0) || failed_before(
                stmts,
                lines,
                st,
                stmts.len() - 1,
            ),
        },
    decreases stmts,
{
    if stmts.len() > 0 {
        let init = stmts.drop_last();
        let (errs, tenv1) = check_collect(init, tenv);
        assert(errs.len() == 0 && check_statement(stmts.last(), tenv1).0 is Ok) by {
            if check_statement(stmts.last(), tenv1).0 is Err {
                assert(check_collect(stmts, tenv).0.len() == errs.len() + 1);
            }
        }
        lemma_collect_typed(init, tenv, lines, st);
        assert(stmts.take(init.len() as int) =~= init);
        let (r, st1) = eval_collect(init, lines, st);
        match r {
            Ok(es) => {
                if es.len() == 0 {
                    lemma_statement_typed(stmts.last(), tenv1, lines, st1);
                } else {
                    assert(eval_collect(stmts.take(init.len() as int), lines, st).0 == r);
                    assert(failed_before(stmts, lines, st, stmts.len() - 1));
                }
            },
            Err(_) => {
                if !no_type_halt(r) {
                    let k = choose|k: int|
                        0 <= k <= init.len() - 1 && some_failed(
                            #[trigger] eval_collect(init.take(k), lines, st).0,
                        );
                    assert(init.take(k) =~= stmts.take(k));
                    assert(failed_before(stmts, lines, st, stmts.len() - 1));
                }
            },
        }
    }
}

/// In a run of a script that type checks, no identifier is unbound, no argument other
/// than a string, no receiver other than a process and no method unknown, until a test
/// has failed: a run halts for another reason than an argument that failed a test only
/// after some of the script's statements have failed tests.
pub proof fn lemma_checked_run_halts_only_after_failures(m: SpecModule, lines: Seq<Seq<char>>)
    requires
        check_module(m, Seq::empty()).0 is Ok,
    ensures
        run_model(m, lines).1 matches SpecOutcome::Halted(h) ==> h == Halt::ArgumentFailed
            || failed_before(m.ast, lines, initial_state(), m.ast.len() - 1),
{
    assert(scopes_match(Seq::empty(), initial_state().env));
    lemma_collect_typed(m.ast, Seq::empty(), lines, initial_state());
}

} // verus!
