//! The type checker.
//!
//! Checking threads the scopes through the script: a block opens a frame (and leaves it
//! open), a test opens a frame, binds `self` to a process once its command is checked,
//! checks its body and closes the innermost frame. A method call needs a process (or a
//! reference to one) as receiver, a string as argument, and the method `send` or
//! `expect`. Blocks and the module collect the errors of their statements; everything
//! else stops at the first error.
use vstd::prelude::*;

use crate::ast::{
    Block, Expression, ExpressionKind, Ident, MethodCall, Module, SpecBlock, SpecExpression,
    SpecExpressionKind, SpecIdent, SpecMethodCall, SpecModule, SpecStatement, SpecStatementKind,
    SpecTest, Statement, StatementKind, StringLiteral, Test, lemma_statements_view,
    statement_view, statements_view,
};
use crate::environment::{TypeCheckEnv, lookup};
use crate::error::{
    SpecTypeCheckErr, SpecTypeCheckErrKind, TypeCheckErr, TypeCheckErrKind, expect,
    flatten_type_check_err, flatten_type_check_list, lemma_flatten_shallow_type_check, lemma_type_check_errs_view_push,
    shallow_type_check, single_type_check, spec_expect, type_check_errs_view,
};
use crate::span::Span;
use crate::types::Type;
use crate::TescArgs;

verus! {

/// The outcome of checking, as a mathematical value.
pub open spec fn check_result_view(r: Result<Type, TypeCheckErr>) -> Result<Type, SpecTypeCheckErr> {
    match r {
        Ok(t) => Ok(t),
        Err(e) => Err(e@),
    }
}

/// `self`
pub open spec fn self_name() -> Seq<char> {
    seq!['s', 'e', 'l', 'f']
}

/// `send`
pub open spec fn send_name() -> Seq<char> {
    seq!['s', 'e', 'n', 'd']
}

/// `expect`
pub open spec fn expect_name() -> Seq<char> {
    seq!['e', 'x', 'p', 'e', 'c', 't']
}

/// A reference to a process.
pub open spec fn process_ref() -> Type {
    Type::Reference(Box::new(Type::Process))
}

/// The innermost frame of `env` with `name` bound to `t`.
pub open spec fn bind_innermost(
    env: Seq<Map<Seq<char>, Type>>,
    name: Seq<char>,
    t: Type,
) -> Seq<Map<Seq<char>, Type>> {
    env.update(env.len() - 1, env.last().insert(name, t))
}

/// The type of an identifier: a reference to the type it is bound to, or an undefined
/// identifier error at its span.
pub open spec fn check_ident(i: SpecIdent, env: Seq<Map<Seq<char>, Type>>) -> Result<
    Type,
    SpecTypeCheckErr,
> {
    match lookup(env, i.ident) {
        Some(t) => Ok(Type::Reference(Box::new(t))),
        None => Err(
            SpecTypeCheckErr {
                kind: SpecTypeCheckErrKind::UndefinedIdentifier(i.ident),
                span: i.span,
            },
        ),
    }
}

/// The type of an expression and the scopes after it.
pub open spec fn check_expression(e: SpecExpression, env: Seq<Map<Seq<char>, Type>>) -> (
    Result<Type, SpecTypeCheckErr>,
    Seq<Map<Seq<char>, Type>>,
)
    decreases e,
{
    match e.kind {
        SpecExpressionKind::Block(b) => check_block(*b, env),
        SpecExpressionKind::MethodCall(m) => check_method_call(*m, env),
        SpecExpressionKind::Ident(i) => (check_ident(i, env), env),
        SpecExpressionKind::StringLiteral(_) => (Ok(Type::String), env),
    }
}

/// The errors of the statements, checked in order, and the scopes after them.
pub open spec fn check_collect(stmts: Seq<SpecStatement>, env: Seq<Map<Seq<char>, Type>>) -> (
    Seq<SpecTypeCheckErr>,
    Seq<Map<Seq<char>, Type>>,
)
    decreases stmts,
{
    if stmts.len() == 0 {
        (Seq::empty(), env)
    } else {
        let (errs, env1) = check_collect(stmts.drop_last(), env);
        let (r, env2) = check_statement(stmts.last(), env1);
        (
            match r {
                Ok(_) => errs,
                Err(e) => errs.push(e),
            },
            env2,
        )
    }
}

/// A block is checked in a scope of its own: its statements, then its tail. Their errors
/// are reported together, flattened, as one `Multiple` error at the block's span.
pub open spec fn check_block(b: SpecBlock, env: Seq<Map<Seq<char>, Type>>) -> (
    Result<Type, SpecTypeCheckErr>,
    Seq<Map<Seq<char>, Type>>,
)
    decreases b,
{
    let (errs, env1) = check_collect(b.body, env.push(Map::empty()));
    let (errs2, tail, env2) = match b.tail {
        Some(x) => {
            let (r, env2) = check_expression(x, env1);
            match r {
                Ok(t) => (errs, t, env2),
                Err(e) => (errs.push(e), Type::Void, env2),
            }
        },
        None => (errs, Type::Void, env1),
    };
    (
        if errs2.len() == 0 {
            Ok(tail)
        } else {
            Err(
                flatten_type_check_err(
                    SpecTypeCheckErr {
                        kind: SpecTypeCheckErrKind::Multiple(errs2),
                        span: b.span,
                    },
                ),
            )
        },
        env2,
    )
}

/// A method call takes a reference to a process and a string; `send` and `expect` give a
/// reference to a process, any other name is an undefined method.
pub open spec fn check_method_call(m: SpecMethodCall, env: Seq<Map<Seq<char>, Type>>) -> (
    Result<Type, SpecTypeCheckErr>,
    Seq<Map<Seq<char>, Type>>,
)
    decreases m,
{
    let (r, env1) = check_expression(m.receiver, env);
    match r {
        Err(e) => (Err(e), env1),
        Ok(t) => {
            let receiver_ok = match t {
                Type::Reference(inner) => spec_expect(Type::Process, *inner, m.receiver.span),
                other => spec_expect(process_ref(), other, m.receiver.span),
            };
            match receiver_ok {
                Err(e) => (Err(e), env1),
                Ok(()) => {
                    let (a, env2) = check_expression(m.argument, env1);
                    match a {
                        Err(e) => (Err(e), env2),
                        Ok(at) => match spec_expect(Type::String, at, m.argument.span) {
                            Err(e) => (Err(e), env2),
                            Ok(()) => {
                                if m.method.ident == send_name() || m.method.ident
                                    == expect_name() {
                                    (Ok(process_ref()), env2)
                                } else {
                                    (
                                        Err(
                                            SpecTypeCheckErr {
                                                kind: SpecTypeCheckErrKind::UndefinedMethod(
                                                    m.method.ident,
                                                ),
                                                span: m.method.span,
                                            },
                                        ),
                                        env2,
                                    )
                                }
                            },
                        },
                    }
                },
            }
        },
    }
}

/// A test's command is a string; its body is checked in a scope of its own, where `self`
/// is a process.
pub open spec fn check_test(t: SpecTest, env: Seq<Map<Seq<char>, Type>>) -> (
    Result<Type, SpecTypeCheckErr>,
    Seq<Map<Seq<char>, Type>>,
)
    decreases t,
{
    let (c, env1) = check_expression(t.command, env.push(Map::empty()));
    match c {
        Err(e) => (Err(e), env1),
        Ok(ct) => match spec_expect(Type::String, ct, t.command.span) {
            Err(e) => (Err(e), env1),
            Ok(()) => {
                let (r, env2) = check_statement(
                    *t.body,
                    bind_innermost(env1, self_name(), Type::Process),
                );
                (r, env2.drop_last())
            },
        },
    }
}

/// The type of a statement and the scopes after it.
pub open spec fn check_statement(s: SpecStatement, env: Seq<Map<Seq<char>, Type>>) -> (
    Result<Type, SpecTypeCheckErr>,
    Seq<Map<Seq<char>, Type>>,
)
    decreases s,
{
    let (r, env1) = match s.kind {
        SpecStatementKind::Test(t) => check_test(t, env),
        SpecStatementKind::Expression(e) => check_expression(e, env),
    };
    (
        match r {
            Ok(_) => Ok(Type::Void),
            Err(e) => Err(e),
        },
        env1,
    )
}

/// The statements of a script, each checked: `Ok` when none fails, else their errors,
/// flattened, at the span `0..0`.
pub open spec fn check_module(m: SpecModule, env: Seq<Map<Seq<char>, Type>>) -> (
    Result<Type, SpecTypeCheckErr>,
    Seq<Map<Seq<char>, Type>>,
) {
    let (errs, env1) = check_collect(m.ast, env);
    (
        if errs.len() == 0 {
            Ok(Type::Void)
        } else {
            Err(
                flatten_type_check_err(
                    SpecTypeCheckErr {
                        kind: SpecTypeCheckErrKind::Multiple(errs),
                        span: Span { start: 0, end: 0 },
                    },
                ),
            )
        },
        env1,
    )
}

// ---------------------------------------------------------------- method calls

/// What the checker accepts of a method call, whatever its receiver and argument are (a
/// chained call included): it type checks exactly when its receiver checks to a reference
/// to a process, its argument (checked after the receiver) to a string, and its method is
/// `send` or `expect`; and it then has the type of a reference to a process, so that it
/// can itself be the receiver of another call.
pub proof fn lemma_check_method_call_accepts(m: SpecMethodCall, env: Seq<Map<Seq<char>, Type>>)
    ensures
        check_method_call(m, env).0 is Ok <==> {
            &&& check_expression(m.receiver, env).0 == Ok::<Type, SpecTypeCheckErr>(process_ref())
            &&& check_expression(m.argument, check_expression(m.receiver, env).1).0 == Ok::<
                Type,
                SpecTypeCheckErr,
            >(Type::String)
            &&& (m.method.ident == send_name() || m.method.ident == expect_name())
        },
        check_method_call(m, env).0 is Ok ==> check_method_call(m, env).0 == Ok::<
            Type,
            SpecTypeCheckErr,
        >(process_ref()),
{
}

// ---------------------------------------------------------------- scope depth

/// `env2` holds the frames of `env`, unchanged, below any frames of its own.
pub open spec fn keeps_frames<V>(env: Seq<Map<Seq<char>, V>>, env2: Seq<Map<Seq<char>, V>>) -> bool {
    env2.len() >= env.len() && env2.subrange(0, env.len() as int) == env
}

/// Keeping the frames is reflexive and transitive.
pub proof fn lemma_keeps_frames_trans<V>(
    a: Seq<Map<Seq<char>, V>>,
    b: Seq<Map<Seq<char>, V>>,
    c: Seq<Map<Seq<char>, V>>,
)
    ensures
        keeps_frames(a, a),
        keeps_frames(a, b) && keeps_frames(b, c) ==> keeps_frames(a, c),
{
    assert(a.subrange(0, a.len() as int) =~= a);
    if keeps_frames(a, b) && keeps_frames(b, c) {
        assert forall|i: int| 0 <= i < a.len() implies c.subrange(0, a.len() as int)[i] == a[i] by {
            assert(c.subrange(0, b.len() as int)[i] == b[i]);
            assert(b.subrange(0, a.len() as int)[i] == a[i]);
        }
        assert(c.subrange(0, a.len() as int) =~= a);
    }
}

/// Opening a frame keeps the frames below it.
proof fn lemma_keeps_frames_push<V>(env: Seq<Map<Seq<char>, V>>)
    ensures
        keeps_frames(env, env.push(Map::empty())),
{
    assert(env.push(Map::empty()).subrange(0, env.len() as int) =~= env);
}

/// Changing the innermost frame of `env2`, or closing it, keeps the frames of `env` where
/// `env2` holds a frame above them.
proof fn lemma_keeps_frames_top<V>(
    env: Seq<Map<Seq<char>, V>>,
    env2: Seq<Map<Seq<char>, V>>,
    top: Map<Seq<char>, V>,
)
    requires
        keeps_frames(env, env2),
        env2.len() > env.len(),
    ensures
        keeps_frames(env, env2.update(env2.len() - 1, top)),
        keeps_frames(env, env2.drop_last()),
{
    assert(env2.update(env2.len() - 1, top).subrange(0, env.len() as int) =~= env2.subrange(
        0,
        env.len() as int,
    ));
    assert(env2.drop_last().subrange(0, env.len() as int) =~= env2.subrange(0, env.len() as int));
}

/// Checking an expression never closes a frame that it did not open, nor changes one.
pub proof fn lemma_check_expression_depth(e: SpecExpression, env: Seq<Map<Seq<char>, Type>>)
    ensures
        check_expression(e, env).1.len() >= env.len(),
        keeps_frames(env, check_expression(e, env).1),
    decreases e,
{
    lemma_keeps_frames_trans(env, env, env);
    match e.kind {
        SpecExpressionKind::Block(b) => lemma_check_block_depth(*b, env),
        SpecExpressionKind::MethodCall(m) => lemma_check_method_call_depth(*m, env),
        _ => {},
    }
}

/// Checking statements never closes a frame that they did not open, nor changes one.
pub proof fn lemma_check_collect_depth(stmts: Seq<SpecStatement>, env: Seq<Map<Seq<char>, Type>>)
    ensures
        check_collect(stmts, env).1.len() >= env.len(),
        keeps_frames(env, check_collect(stmts, env).1),
    decreases stmts,
{
    lemma_keeps_frames_trans(env, env, env);
    if stmts.len() > 0 {
        let env1 = check_collect(stmts.drop_last(), env).1;
        lemma_check_collect_depth(stmts.drop_last(), env);
        lemma_check_statement_depth(stmts.last(), env1);
        lemma_keeps_frames_trans(env, env1, check_statement(stmts.last(), env1).1);
    }
}

/// A block leaves its own frame open above the enclosing ones, and leaves every enclosing
/// frame as it was, whether it type checks or not.
pub proof fn lemma_check_block_depth(b: SpecBlock, env: Seq<Map<Seq<char>, Type>>)
    ensures
        check_block(b, env).1.len() > env.len(),
        check_block(b, env).1.subrange(0, env.len() as int) == env,
    decreases b,
{
    let env0 = env.push(Map::empty());
    lemma_keeps_frames_push(env);
    lemma_check_collect_depth(b.body, env0);
    let env1 = check_collect(b.body, env0).1;
    lemma_keeps_frames_trans(env, env0, env1);
    if let Some(x) = b.tail {
        lemma_check_expression_depth(x, env1);
        lemma_keeps_frames_trans(env, env1, check_expression(x, env1).1);
    }
}

/// Checking a method call never closes a frame that it did not open, nor changes one.
pub proof fn lemma_check_method_call_depth(m: SpecMethodCall, env: Seq<Map<Seq<char>, Type>>)
    ensures
        check_method_call(m, env).1.len() >= env.len(),
        keeps_frames(env, check_method_call(m, env).1),
    decreases m,
{
    let env1 = check_expression(m.receiver, env).1;
    lemma_check_expression_depth(m.receiver, env);
    lemma_check_expression_depth(m.argument, env1);
    lemma_keeps_frames_trans(env, env1, check_expression(m.argument, env1).1);
}

/// Checking a test never closes a frame that it did not open, nor changes one.
pub proof fn lemma_check_test_depth(t: SpecTest, env: Seq<Map<Seq<char>, Type>>)
    ensures
        check_test(t, env).1.len() >= env.len(),
        keeps_frames(env, check_test(t, env).1),
    decreases t,
{
    let env0 = env.push(Map::empty());
    lemma_keeps_frames_push(env);
    lemma_check_expression_depth(t.command, env0);
    let env1 = check_expression(t.command, env0).1;
    lemma_keeps_frames_trans(env, env0, env1);
    let bound = bind_innermost(env1, self_name(), Type::Process);
    lemma_keeps_frames_top(env, env1, env1.last().insert(self_name(), Type::Process));
    lemma_check_statement_depth(*t.body, bound);
    let env2 = check_statement(*t.body, bound).1;
    lemma_keeps_frames_trans(env, bound, env2);
    lemma_keeps_frames_top(env, env2, env2.last());
}

/// Checking a statement never closes a frame that it did not open, nor changes one.
pub proof fn lemma_check_statement_depth(s: SpecStatement, env: Seq<Map<Seq<char>, Type>>)
    ensures
        check_statement(s, env).1.len() >= env.len(),
        keeps_frames(env, check_statement(s, env).1),
    decreases s,
{
    match s.kind {
        SpecStatementKind::Test(t) => lemma_check_test_depth(t, env),
        SpecStatementKind::Expression(e) => lemma_check_expression_depth(e, env),
    }
}

// ---------------------------------------------------------------- what is reported

/// An expression that fails reports no nested `Multiple` error.
pub proof fn lemma_check_expression_shallow(e: SpecExpression, env: Seq<Map<Seq<char>, Type>>)
    ensures
        check_expression(e, env).0 matches Err(x) ==> shallow_type_check(x),
    decreases e,
{
    match e.kind {
        SpecExpressionKind::Block(b) => lemma_check_block_shallow(*b, env),
        SpecExpressionKind::MethodCall(m) => lemma_check_method_call_shallow(*m, env),
        _ => {},
    }
}

/// Each error collected from statements reports no nested `Multiple` error.
pub proof fn lemma_check_collect_shallow(stmts: Seq<SpecStatement>, env: Seq<Map<Seq<char>, Type>>)
    ensures
        forall|i: int|
            0 <= i < check_collect(stmts, env).0.len() ==> shallow_type_check(
                #[trigger] check_collect(stmts, env).0[i],
            ),
    decreases stmts,
{
    if stmts.len() > 0 {
        lemma_check_collect_shallow(stmts.drop_last(), env);
        lemma_check_statement_shallow(stmts.last(), check_collect(stmts.drop_last(), env).1);
    }
}

/// A block that fails reports no nested `Multiple` error.
pub proof fn lemma_check_block_shallow(b: SpecBlock, env: Seq<Map<Seq<char>, Type>>)
    ensures
        check_block(b, env).0 matches Err(x) ==> shallow_type_check(x),
    decreases b,
{
    let env0 = env.push(Map::empty());
    lemma_check_collect_shallow(b.body, env0);
    let (errs, env1) = check_collect(b.body, env0);
    let errs2 = match b.tail {
        Some(x) => {
            lemma_check_expression_shallow(x, env1);
            match check_expression(x, env1).0 {
                Ok(_) => errs,
                Err(e) => errs.push(e),
            }
        },
        None => errs,
    };
    assert forall|i: int| 0 <= i < errs2.len() implies shallow_type_check(#[trigger] errs2[i]) by {
        if i < errs.len() {
            assert(errs2[i] == errs[i]);
        }
    }
    lemma_flatten_shallow_type_check(errs2);
    let flat = flatten_type_check_err(
        SpecTypeCheckErr { kind: SpecTypeCheckErrKind::Multiple(errs2), span: b.span },
    );
    assert(flat.kind == SpecTypeCheckErrKind::Multiple(flatten_type_check_list(errs2)));
    assert(shallow_type_check(flat));
}

/// A method call that fails reports no nested `Multiple` error.
pub proof fn lemma_check_method_call_shallow(m: SpecMethodCall, env: Seq<Map<Seq<char>, Type>>)
    ensures
        check_method_call(m, env).0 matches Err(x) ==> shallow_type_check(x),
    decreases m,
{
    lemma_check_expression_shallow(m.receiver, env);
    lemma_check_expression_shallow(m.argument, check_expression(m.receiver, env).1);
}

/// A test that fails reports no nested `Multiple` error.
pub proof fn lemma_check_test_shallow(t: SpecTest, env: Seq<Map<Seq<char>, Type>>)
    ensures
        check_test(t, env).0 matches Err(x) ==> shallow_type_check(x),
    decreases t,
{
    let env0 = env.push(Map::empty());
    lemma_check_expression_shallow(t.command, env0);
    let env1 = check_expression(t.command, env0).1;
    lemma_check_statement_shallow(*t.body, bind_innermost(env1, self_name(), Type::Process));
}

/// A statement that fails reports no nested `Multiple` error.
pub proof fn lemma_check_statement_shallow(s: SpecStatement, env: Seq<Map<Seq<char>, Type>>)
    ensures
        check_statement(s, env).0 matches Err(x) ==> shallow_type_check(x),
    decreases s,
{
    match s.kind {
        SpecStatementKind::Test(t) => lemma_check_test_shallow(t, env),
        SpecStatementKind::Expression(e) => lemma_check_expression_shallow(e, env),
    }
}

/// Checking a script reports its errors as a `Multiple` of single errors: each one has a
/// message of its own.
pub proof fn lemma_check_module_reports_singles(m: SpecModule, env: Seq<Map<Seq<char>, Type>>)
    ensures
        check_module(m, env).0 matches Err(e) ==> (e.kind matches SpecTypeCheckErrKind::Multiple(
            errs,
        ) && forall|i: int| 0 <= i < errs.len() ==> single_type_check(#[trigger] errs[i])),
{
    let errs = check_collect(m.ast, env).0;
    lemma_check_collect_shallow(m.ast, env);
    lemma_flatten_shallow_type_check(errs);
    let flat = flatten_type_check_err(
        SpecTypeCheckErr { kind: SpecTypeCheckErrKind::Multiple(errs), span: Span { start: 0, end: 0 } },
    );
    assert(flat.kind == SpecTypeCheckErrKind::Multiple(flatten_type_check_list(errs)));
}

// ---------------------------------------------------------------- the checker

/// `s` reads `lit`.
pub(crate) fn text_is(s: &String, lit: &str) -> (b: bool)
    ensures
        b == (s@ == lit@),
{
    let t = String::from_str(lit);
    *s == t
}

impl StringLiteral {
    /// A string literal has the type `String`; the scopes are unchanged.
    pub fn check(&self, _opts: &TescArgs, _env: &mut TypeCheckEnv) -> (r: Result<
        Type,
        TypeCheckErr,
    >)
        ensures
            r matches Ok(t) && t == Type::String,
            final(_env)@ == old(_env)@,
    {
        Ok(Type::String)
    }
}

impl Ident {
    /// The type of the identifier in the scopes, as `check_ident` gives it.
    pub fn check(&self, _opts: &TescArgs, env: &mut TypeCheckEnv) -> (r: Result<
        Type,
        TypeCheckErr,
    >)
        ensures
            check_result_view(r) == check_ident(self@, old(env)@),
            final(env)@ == old(env)@,
    {
        match env.get(&self.ident) {
            Some(v) => Ok(Type::Reference(Box::new(v))),
            None => Err(
                TypeCheckErr {
                    span: self.span,
                    kind: TypeCheckErrKind::UndefinedIdentifier(self.ident.clone()),
                },
            ),
        }
    }
}

impl Expression {
    /// The type of the expression and the scopes after it, as `check_expression` gives them.
    pub fn check(&self, opts: &TescArgs, env: &mut TypeCheckEnv) -> (r: Result<
        Type,
        TypeCheckErr,
    >)
        ensures
            (check_result_view(r), final(env)@) == check_expression(self@, old(env)@),
        decreases self,
    {
        match &self.kind {
            ExpressionKind::Block(block) => {
                let block: &Block = block;
                block.check(opts, env)
            },
            ExpressionKind::MethodCall(method_call) => {
                let method_call: &MethodCall = method_call;
                method_call.check(opts, env)
            },
            ExpressionKind::Ident(ident) => ident.check(opts, env),
            ExpressionKind::StringLiteral(string) => string.check(opts, env),
        }
    }
}

impl Block {
    /// The type of the block and the scopes after it, as `check_block` gives them.
    pub fn check(&self, opts: &TescArgs, env: &mut TypeCheckEnv) -> (r: Result<
        Type,
        TypeCheckErr,
    >)
        ensures
            (check_result_view(r), final(env)@) == check_block(self@, old(env)@),
        decreases self,
    {
        let ghost sv = statements_view(self.body@);
        let mut errors: Vec<TypeCheckErr> = Vec::new();
        env.push_frame();
        let ghost env0 = env@;
        proof {
            lemma_statements_view(self.body@);
            assert(sv.take(0) =~= Seq::<SpecStatement>::empty());
        }
        let mut i: usize = 0;
        while i < self.body.len()
            invariant
                sv == statements_view(self.body@),
                sv.len() == self.body@.len(),
                forall|k: int| 0 <= k < sv.len() ==> sv[k] == statement_view(#[trigger] self.body@[k]),
                i <= self.body@.len(),
                (type_check_errs_view(errors@), env@) == check_collect(sv.take(i as int), env0),
            decreases self.body@.len() - i,
        {
            proof {
                assert(sv.take(i + 1).drop_last() =~= sv.take(i as int));
                assert(sv.take(i + 1).last() == sv[i as int]);
            }
            let stmt: &Statement = &self.body[i];
            match stmt.check(opts, env) {
                Ok(_) => {},
                Err(e) => {
                    proof {
                        lemma_type_check_errs_view_push(errors@, e);
                    }
                    errors.push(e);
                },
            }
            i = i + 1;
        }
        proof {
            assert(sv.take(i as int) =~= sv);
        }
        let tail = match &self.tail {
            Some(expr) => match expr.check(opts, env) {
                Ok(t) => t,
                Err(e) => {
                    proof {
                        lemma_type_check_errs_view_push(errors@, e);
                    }
                    errors.push(e);
                    Type::Void
                },
            },
            None => Type::Void,
        };
        if errors.len() == 0 {
            Ok(tail)
        } else {
            Err(TypeCheckErr { kind: TypeCheckErrKind::Multiple(errors), span: self.span }.flatten())
        }
    }
}

impl MethodCall {
    /// The type of the method call and the scopes after it, as `check_method_call` gives them.
    pub fn check(&self, opts: &TescArgs, env: &mut TypeCheckEnv) -> (r: Result<
        Type,
        TypeCheckErr,
    >)
        ensures
            (check_result_view(r), final(env)@) == check_method_call(self@, old(env)@),
        decreases self,
    {
        let t = match self.receiver.check(opts, env) {
            Ok(t) => t,
            Err(e) => {
                return Err(e);
            },
        };
        let receiver_ok = match t {
            Type::Reference(r) => expect(Type::Process, *r, self.receiver.span),
            t => expect(Type::Reference(Box::new(Type::Process)), t, self.receiver.span),
        };
        if let Err(e) = receiver_ok {
            return Err(e);
        }
        let at = match self.argument.check(opts, env) {
            Ok(t) => t,
            Err(e) => {
                return Err(e);
            },
        };
        if let Err(e) = expect(Type::String, at, self.argument.span) {
            return Err(e);
        }
        proof {
            reveal_strlit("send");
            reveal_strlit("expect");
            assert("send"@ =~= send_name());
            assert("expect"@ =~= expect_name());
        }
        if text_is(&self.method.ident, "send") || text_is(&self.method.ident, "expect") {
            Ok(Type::Reference(Box::new(Type::Process)))
        } else {
            Err(
                TypeCheckErr {
                    kind: TypeCheckErrKind::UndefinedMethod(self.method.ident.clone()),
                    span: self.method.span,
                },
            )
        }
    }
}

impl Test {
    /// The type of the test and the scopes after it, as `check_test` gives them.
    pub fn check(&self, opts: &TescArgs, env: &mut TypeCheckEnv) -> (r: Result<
        Type,
        TypeCheckErr,
    >)
        ensures
            (check_result_view(r), final(env)@) == check_test(self@, old(env)@),
        decreases self,
    {
        env.push_frame();
        let ct = match self.command.check(opts, env) {
            Ok(t) => t,
            Err(e) => {
                return Err(e);
            },
        };
        if let Err(e) = expect(Type::String, ct, self.command.span) {
            return Err(e);
        }
        proof {
            lemma_check_expression_depth(self@.command, old(env)@.push(Map::empty()));
            reveal_strlit("self");
            assert("self"@ =~= self_name());
        }
        let name = String::from_str("self");
        env.insert(name, Type::Process);
        let body: &Statement = &self.body;
        let result = body.check(opts, env);
        proof {
            lemma_check_statement_depth(
                *self@.body,
                bind_innermost(
                    check_expression(self@.command, old(env)@.push(Map::empty())).1,
                    self_name(),
                    Type::Process,
                ),
            );
        }
        env.pop_frame();
        result
    }
}

impl Statement {
    /// The type of the statement and the scopes after it, as `check_statement` gives them.
    pub fn check(&self, opts: &TescArgs, env: &mut TypeCheckEnv) -> (r: Result<
        Type,
        TypeCheckErr,
    >)
        ensures
            (check_result_view(r), final(env)@) == check_statement(self@, old(env)@),
        decreases self,
    {
        let r = match &self.kind {
            StatementKind::Test(test) => test.check(opts, env),
            StatementKind::Expression(expression) => expression.check(opts, env),
        };
        match r {
            Ok(_) => Ok(Type::Void),
            Err(e) => Err(e),
        }
    }
}

impl Module {
    /// The errors of the script, as `check_module` gives them.
    pub fn check(&self, opts: &TescArgs, env: &mut TypeCheckEnv) -> (r: Result<
        Type,
        TypeCheckErr,
    >)
        ensures
            (check_result_view(r), final(env)@) == check_module(self@, old(env)@),
    {
        let ghost sv = statements_view(self.ast@);
        let ghost env0 = env@;
        let mut failures: Vec<TypeCheckErr> = Vec::new();
        proof {
            lemma_statements_view(self.ast@);
            assert(sv.take(0) =~= Seq::<SpecStatement>::empty());
        }
        let mut i: usize = 0;
        while i < self.ast.len()
            invariant
                sv == statements_view(self.ast@),
                sv.len() == self.ast@.len(),
                forall|k: int| 0 <= k < sv.len() ==> sv[k] == statement_view(#[trigger] self.ast@[k]),
                i <= self.ast@.len(),
                (type_check_errs_view(failures@), env@) == check_collect(sv.take(i as int), env0),
            decreases self.ast@.len() - i,
        {
            proof {
                assert(sv.take(i + 1).drop_last() =~= sv.take(i as int));
                assert(sv.take(i + 1).last() == sv[i as int]);
            }
            match self.ast[i].check(opts, env) {
                Ok(_) => {},
                Err(e) => {
                    proof {
                        lemma_type_check_errs_view_push(failures@, e);
                    }
                    failures.push(e);
                },
            }
            i = i + 1;
        }
        proof {
            assert(sv.take(i as int) =~= sv);
        }
        if failures.len() == 0 {
            Ok(Type::Void)
        } else {
            Err(
                TypeCheckErr {
                    kind: TypeCheckErrKind::Multiple(failures),
                    span: Span { start: 0, end: 0 },
                }.flatten(),
            )
        }
    }
}

} // verus!
