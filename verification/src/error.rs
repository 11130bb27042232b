//! Errors of type checking and of running tests.
use vstd::prelude::*;

use crate::span::Span;
use crate::types::{Type, type_text};

verus! {

/// A type error and where it stands.
#[derive(Debug)]
pub struct TypeCheckErr {
    pub kind: TypeCheckErrKind,
    pub span: Span,
}

#[derive(Debug)]
pub enum TypeCheckErrKind {
    UndefinedIdentifier(String),
    UndefinedMethod(String),
    TypeMissmatch { actual: Type, expected: Type },
    /// Several errors found side by side.
    Multiple(Vec<TypeCheckErr>),
}

/// A failed test and where it stands.
#[derive(Debug)]
pub struct RunTimeErr {
    pub kind: RunTimeErrKind,
    pub span: Span,
}

#[derive(Debug)]
pub enum RunTimeErrKind {
    /// The program printed `actual` where the test expected `expected`.
    OutputMissmatch { actual: String, expected: String },
    /// Several failures found side by side.
    Multiple(Vec<RunTimeErr>),
}

// ---------------------------------------------------------------- the model

pub struct SpecTypeCheckErr {
    pub kind: SpecTypeCheckErrKind,
    pub span: Span,
}

pub enum SpecTypeCheckErrKind {
    UndefinedIdentifier(Seq<char>),
    UndefinedMethod(Seq<char>),
    TypeMissmatch { actual: Type, expected: Type },
    Multiple(Seq<SpecTypeCheckErr>),
}

pub struct SpecRunTimeErr {
    pub kind: SpecRunTimeErrKind,
    pub span: Span,
}

pub enum SpecRunTimeErrKind {
    OutputMissmatch { actual: Seq<char>, expected: Seq<char> },
    Multiple(Seq<SpecRunTimeErr>),
}

/// A type error over mathematical values.
pub open spec fn type_check_err_view(e: TypeCheckErr) -> SpecTypeCheckErr
    decreases e,
{
    SpecTypeCheckErr {
        kind: match e.kind {
            TypeCheckErrKind::UndefinedIdentifier(s) => SpecTypeCheckErrKind::UndefinedIdentifier(s@),
            TypeCheckErrKind::UndefinedMethod(s) => SpecTypeCheckErrKind::UndefinedMethod(s@),
            TypeCheckErrKind::TypeMissmatch { actual, expected } => SpecTypeCheckErrKind::TypeMissmatch {
                actual,
                expected,
            },
            TypeCheckErrKind::Multiple(v) => SpecTypeCheckErrKind::Multiple(type_check_errs_view(v@)),
        },
        span: e.span,
    }
}

/// Type errors over mathematical values, in order.
pub open spec fn type_check_errs_view(v: Seq<TypeCheckErr>) -> Seq<SpecTypeCheckErr>
    decreases v,
{
    if v.len() == 0 {
        Seq::empty()
    } else {
        type_check_errs_view(v.drop_last()).push(type_check_err_view(v.last()))
    }
}

/// A run-time error over mathematical values.
pub open spec fn run_time_err_view(e: RunTimeErr) -> SpecRunTimeErr
    decreases e,
{
    SpecRunTimeErr {
        kind: match e.kind {
            RunTimeErrKind::OutputMissmatch { actual, expected } => SpecRunTimeErrKind::OutputMissmatch {
                actual: actual@,
                expected: expected@,
            },
            RunTimeErrKind::Multiple(v) => SpecRunTimeErrKind::Multiple(run_time_errs_view(v@)),
        },
        span: e.span,
    }
}

/// Run-time errors over mathematical values, in order.
pub open spec fn run_time_errs_view(v: Seq<RunTimeErr>) -> Seq<SpecRunTimeErr>
    decreases v,
{
    if v.len() == 0 {
        Seq::empty()
    } else {
        run_time_errs_view(v.drop_last()).push(run_time_err_view(v.last()))
    }
}

impl View for TypeCheckErr {
    type V = SpecTypeCheckErr;

    open spec fn view(&self) -> SpecTypeCheckErr {
        type_check_err_view(*self)
    }
}

impl View for RunTimeErr {
    type V = SpecRunTimeErr;

    open spec fn view(&self) -> SpecRunTimeErr {
        run_time_err_view(*self)
    }
}

/// Flattening: the errors of a `Multiple` that are themselves `Multiple` give way to their
/// own errors, each flattened; any other error is kept as it is.
pub open spec fn flatten_type_check_err(e: SpecTypeCheckErr) -> SpecTypeCheckErr
    decreases e, 2nat,
{
    match e.kind {
        SpecTypeCheckErrKind::Multiple(errs) => SpecTypeCheckErr {
            kind: SpecTypeCheckErrKind::Multiple(flatten_type_check_list(errs)),
            span: e.span,
        },
        _ => e,
    }
}

/// The errors of a `Multiple` after flattening.
pub open spec fn flatten_type_check_list(errs: Seq<SpecTypeCheckErr>) -> Seq<SpecTypeCheckErr>
    decreases errs, 1nat,
{
    if errs.len() == 0 {
        Seq::empty()
    } else {
        flatten_type_check_list(errs.drop_last()) + match errs.last().kind {
            SpecTypeCheckErrKind::Multiple(children) => flatten_each_type_check(children),
            _ => seq![errs.last()],
        }
    }
}

/// Each error flattened.
pub open spec fn flatten_each_type_check(errs: Seq<SpecTypeCheckErr>) -> Seq<SpecTypeCheckErr>
    decreases errs, 0nat,
{
    if errs.len() == 0 {
        Seq::empty()
    } else {
        flatten_each_type_check(errs.drop_last()).push(flatten_type_check_err(errs.last()))
    }
}

/// A run-time error with each nested `Multiple` list replaced by its flat list.
pub open spec fn flatten_run_time_err(e: SpecRunTimeErr) -> SpecRunTimeErr
    decreases e, 2nat,
{
    match e.kind {
        SpecRunTimeErrKind::Multiple(errs) => SpecRunTimeErr {
            kind: SpecRunTimeErrKind::Multiple(flatten_run_time_list(errs)),
            span: e.span,
        },
        _ => e,
    }
}

/// The errors of a list, each `Multiple` among them replaced by its flat children.
pub open spec fn flatten_run_time_list(errs: Seq<SpecRunTimeErr>) -> Seq<SpecRunTimeErr>
    decreases errs, 1nat,
{
    if errs.len() == 0 {
        Seq::empty()
    } else {
        flatten_run_time_list(errs.drop_last()) + match errs.last().kind {
            SpecRunTimeErrKind::Multiple(children) => flatten_each_run_time(children),
            _ => seq![errs.last()],
        }
    }
}

/// Each error of a list, flattened.
pub open spec fn flatten_each_run_time(errs: Seq<SpecRunTimeErr>) -> Seq<SpecRunTimeErr>
    decreases errs, 0nat,
{
    if errs.len() == 0 {
        Seq::empty()
    } else {
        flatten_each_run_time(errs.drop_last()).push(flatten_run_time_err(errs.last()))
    }
}

/// The message of a type error that is not `Multiple`.
pub open spec fn type_check_reason(kind: SpecTypeCheckErrKind) -> Seq<char> {
    match kind {
        SpecTypeCheckErrKind::UndefinedIdentifier(i) => seq![
            'u',
            'n',
            'd',
            'e',
            'f',
            'i',
            'n',
            'e',
            'd',
            ' ',
            'i',
            'd',
            'e',
            'n',
            't',
            ':',
            ' ',
            '`',
        ] + i + seq!['`'],
        SpecTypeCheckErrKind::UndefinedMethod(m) => seq![
            'u',
            'n',
            'd',
            'e',
            'f',
            'i',
            'n',
            'e',
            'd',
            ' ',
            'm',
            'e',
            't',
            'h',
            'o',
            'd',
            ':',
            ' ',
            '`',
        ] + m + seq!['`'],
        SpecTypeCheckErrKind::TypeMissmatch { actual, expected } => mismatch_text(
            type_text(expected),
            type_text(actual),
        ),
        SpecTypeCheckErrKind::Multiple(_) => Seq::empty(),
    }
}

/// The message of a failure that is not `Multiple`.
pub open spec fn run_time_reason(kind: SpecRunTimeErrKind) -> Seq<char> {
    match kind {
        SpecRunTimeErrKind::OutputMissmatch { actual, expected } => mismatch_text(expected, actual),
        SpecRunTimeErrKind::Multiple(_) => Seq::empty(),
    }
}

/// ``expected: `E`, actual: `A` ``
pub open spec fn mismatch_text(expected: Seq<char>, actual: Seq<char>) -> Seq<char> {
    seq!['e', 'x', 'p', 'e', 'c', 't', 'e', 'd', ':', ' ', '`'] + expected + seq![
        '`',
        ',',
        ' ',
        'a',
        'c',
        't',
        'u',
        'a',
        'l',
        ':',
        ' ',
        '`',
    ] + actual + seq!['`']
}

/// `Ok` when the types are the same, else a mismatch at `span`.
pub open spec fn spec_expect(expected: Type, actual: Type, span: Span) -> Result<
    (),
    SpecTypeCheckErr,
> {
    if expected == actual {
        Ok(())
    } else {
        Err(
            SpecTypeCheckErr {
                kind: SpecTypeCheckErrKind::TypeMissmatch { actual, expected },
                span,
            },
        )
    }
}

// ---------------------------------------------------------------- operations

/// `Ok` when `actual` is `expected`, else a type mismatch at `span`.
pub fn expect(expected: Type, actual: Type, span: Span) -> (r: Result<(), TypeCheckErr>)
    ensures
        match r {
            Ok(()) => spec_expect(expected, actual, span) is Ok,
            Err(e) => spec_expect(expected, actual, span) == Err::<(), SpecTypeCheckErr>(e@),
        },
{
    if expected == actual {
        Ok(())
    } else {
        Err(TypeCheckErr { span, kind: TypeCheckErrKind::TypeMissmatch { actual, expected } })
    }
}

fn text(s: &str) -> (r: String)
    ensures
        r@ == s@,
{
    String::from_str(s)
}

/// ``expected: `E`, actual: `A` ``
fn mismatch_message(expected: &str, actual: &str) -> (r: String)
    ensures
        r@ == mismatch_text(expected@, actual@),
{
    let mut r = text("expected: `");
    r.append(expected);
    r.append("`, actual: `");
    r.append(actual);
    r.append("`");
    proof {
        reveal_strlit("expected: `");
        reveal_strlit("`, actual: `");
        reveal_strlit("`");
        assert(r@ =~= mismatch_text(expected@, actual@));
    }
    r
}

impl TypeCheckErr {
    /// The message of this error, which must not be `Multiple`.
    pub fn reason(&self) -> (r: String)
        requires
            !(self.kind is Multiple),
        ensures
            r@ == type_check_reason(self@.kind),
    {
        match &self.kind {
            TypeCheckErrKind::UndefinedIdentifier(ident) => {
                let mut r = text("undefined ident: `");
                r.append(ident.as_str());
                r.append("`");
                proof {
                    reveal_strlit("undefined ident: `");
                    reveal_strlit("`");
                    assert(r@ =~= type_check_reason(self@.kind));
                }
                r
            },
            TypeCheckErrKind::UndefinedMethod(method) => {
                let mut r = text("undefined method: `");
                r.append(method.as_str());
                r.append("`");
                proof {
                    reveal_strlit("undefined method: `");
                    reveal_strlit("`");
                    assert(r@ =~= type_check_reason(self@.kind));
                }
                r
            },
            TypeCheckErrKind::TypeMissmatch { actual, expected } => {
                let e = expected.to_text();
                let a = actual.to_text();
                mismatch_message(e.as_str(), a.as_str())
            },
            TypeCheckErrKind::Multiple(_) => {
                proof {
                    assert(false);
                }
                String::new()
            },
        }
    }

    /// Flattens a `Multiple` by one level (see [`flatten_type_check_err`]); any other
    /// error comes back as it is.
    pub fn flatten(self) -> (r: TypeCheckErr)
        ensures
            r@ == flatten_type_check_err(self@),
        decreases type_check_height(self@),
    {
        match self.kind {
            TypeCheckErrKind::Multiple(errs) => {
                let span = self.span;
                let new_errs = flatten_list_type_check(errs);
                TypeCheckErr { kind: TypeCheckErrKind::Multiple(new_errs), span }
            },
            kind => TypeCheckErr { kind, span: self.span },
        }
    }
}

/// How deeply `Multiple`s nest in an error.
pub open spec fn type_check_height(e: SpecTypeCheckErr) -> nat
    decreases e, 1nat,
{
    match e.kind {
        SpecTypeCheckErrKind::Multiple(errs) => 1 + type_check_max_height(errs),
        _ => 0,
    }
}

/// The deepest nesting of `Multiple` errors in a list.
pub open spec fn type_check_max_height(errs: Seq<SpecTypeCheckErr>) -> nat
    decreases errs, 0nat,
{
    if errs.len() == 0 {
        0
    } else {
        let a = type_check_max_height(errs.drop_last());
        let b = type_check_height(errs.last());
        if a >= b {
            a
        } else {
            b
        }
    }
}

proof fn lemma_type_check_max_height(errs: Seq<SpecTypeCheckErr>, k: int)
    requires
        0 <= k < errs.len(),
    ensures
        type_check_height(errs[k]) <= type_check_max_height(errs),
    decreases errs.len(),
{
    if k < errs.len() - 1 {
        lemma_type_check_max_height(errs.drop_last(), k);
        assert(errs.drop_last()[k] == errs[k]);
    }
}

/// The view of a list of type errors is taken item by item.
pub proof fn lemma_type_check_errs_view(v: Seq<TypeCheckErr>)
    ensures
        type_check_errs_view(v).len() == v.len(),
        forall|k: int|
            0 <= k < v.len() ==> type_check_errs_view(v)[k] == type_check_err_view(#[trigger] v[k]),
    decreases v.len(),
{
    if v.len() > 0 {
        lemma_type_check_errs_view(v.drop_last());
        assert forall|k: int| 0 <= k < v.len() implies type_check_errs_view(v)[k]
            == type_check_err_view(#[trigger] v[k]) by {
            if k < v.len() - 1 {
                assert(v.drop_last()[k] == v[k]);
            }
        }
    }
}

/// The view of a list of type errors grows with the list.
pub proof fn lemma_type_check_errs_view_push(v: Seq<TypeCheckErr>, x: TypeCheckErr)
    ensures
        type_check_errs_view(v.push(x)) == type_check_errs_view(v).push(type_check_err_view(x)),
{
    assert(v.push(x).drop_last() =~= v);
}

/// Removing the first type error removes the first item of the view.
pub proof fn lemma_type_check_errs_view_remove_first(v: Seq<TypeCheckErr>)
    requires
        v.len() > 0,
    ensures
        type_check_errs_view(v.remove(0)) == type_check_errs_view(v).subrange(1, v.len() as int),
{
    lemma_type_check_errs_view(v);
    lemma_type_check_errs_view(v.remove(0));
    assert forall|k: int| 0 <= k < v.len() - 1 implies type_check_errs_view(v.remove(0))[k]
        == type_check_errs_view(v)[k + 1] by {
        assert(v.remove(0)[k] == v[k + 1]);
    }
    assert(type_check_errs_view(v.remove(0)) =~= type_check_errs_view(v).subrange(
        1,
        v.len() as int,
    ));
}

fn flatten_list_type_check(input: Vec<TypeCheckErr>) -> (r: Vec<TypeCheckErr>)
    ensures
        type_check_errs_view(r@) == flatten_type_check_list(type_check_errs_view(input@)),
    decreases type_check_max_height(type_check_errs_view(input@)),
{
    let ghost all = type_check_errs_view(input@);
    let ghost bound = type_check_max_height(all);
    let mut errs = input;
    let mut new_errs: Vec<TypeCheckErr> = Vec::new();
    let ghost mut done: int = 0;
    proof {
        lemma_type_check_errs_view(errs@);
        assert(all.subrange(0, all.len() as int) =~= all);
        assert(all.take(0) =~= Seq::<SpecTypeCheckErr>::empty());
    }
    while errs.len() > 0
        invariant
            0 <= done <= all.len(),
            bound == type_check_max_height(all),
            all == type_check_errs_view(input@),
            type_check_errs_view(errs@) == all.subrange(done, all.len() as int),
            type_check_errs_view(new_errs@) == flatten_type_check_list(all.take(done)),
        decreases errs.len(),
    {
        proof {
            lemma_type_check_errs_view(errs@);
            lemma_type_check_errs_view_remove_first(errs@);
            lemma_type_check_max_height(all, done);
            assert(all.take(done + 1).drop_last() =~= all.take(done));
        }
        let ghost before = new_errs@;
        let e = errs.remove(0);
        let ghost ev = e@;
        assert(ev == all[done]);
        match e.kind {
            TypeCheckErrKind::Multiple(children) => {
                let ghost cv = type_check_errs_view(children@);
                let mut children = children;
                let ghost mut m: int = 0;
                proof {
                    assert(cv.subrange(0, cv.len() as int) =~= cv);
                    assert(cv.take(0) =~= Seq::<SpecTypeCheckErr>::empty());
                    assert(type_check_errs_view(before) + flatten_each_type_check(cv.take(0))
                        =~= type_check_errs_view(before));
                }
                while children.len() > 0
                    invariant
                        0 <= m <= cv.len(),
                        1 + type_check_max_height(cv) <= bound,
                        bound == type_check_max_height(all),
                        all == type_check_errs_view(input@),
                        type_check_errs_view(children@) == cv.subrange(m, cv.len() as int),
                        type_check_errs_view(new_errs@) == type_check_errs_view(before)
                            + flatten_each_type_check(cv.take(m)),
                    decreases children.len(),
                {
                    proof {
                        lemma_type_check_errs_view(children@);
                        lemma_type_check_errs_view_remove_first(children@);
                        lemma_type_check_max_height(cv, m);
                        assert(cv.take(m + 1).drop_last() =~= cv.take(m));
                    }
                    let c = children.remove(0);
                    assert(c@ == cv[m]);
                    assert(type_check_height(c@) < bound);
                    let fc = c.flatten();
                    proof {
                        lemma_type_check_errs_view_push(new_errs@, fc);
                        assert(type_check_errs_view(before) + flatten_each_type_check(
                            cv.take(m + 1),
                        ) =~= (type_check_errs_view(before) + flatten_each_type_check(
                            cv.take(m),
                        )).push(fc@));
                        m = m + 1;
                    }
                    new_errs.push(fc);
                }
                proof {
                    assert(cv.take(m) =~= cv);
                }
            },
            kind => {
                let kept = TypeCheckErr { kind, span: e.span };
                assert(kept@ == ev);
                proof {
                    lemma_type_check_errs_view_push(new_errs@, kept);
                }
                new_errs.push(kept);
            },
        }
        proof {
            done = done + 1;
        }
    }
    proof {
        assert(all.take(done) =~= all);
    }
    new_errs
}

impl RunTimeErr {
    /// The message of this failure, which must not be `Multiple`.
    pub fn reason(&self) -> (r: String)
        requires
            !(self.kind is Multiple),
        ensures
            r@ == run_time_reason(self@.kind),
    {
        match &self.kind {
            RunTimeErrKind::OutputMissmatch { actual, expected } => {
                mismatch_message(expected.as_str(), actual.as_str())
            },
            RunTimeErrKind::Multiple(_) => {
                proof {
                    assert(false);
                }
                String::new()
            },
        }
    }

    /// Flattens a `Multiple` by one level (see [`flatten_run_time_err`]); any other
    /// error comes back as it is.
    pub fn flatten(self) -> (r: RunTimeErr)
        ensures
            r@ == flatten_run_time_err(self@),
        decreases run_time_height(self@),
    {
        match self.kind {
            RunTimeErrKind::Multiple(errs) => {
                let span = self.span;
                let new_errs = flatten_list_run_time(errs);
                RunTimeErr { kind: RunTimeErrKind::Multiple(new_errs), span }
            },
            kind => RunTimeErr { kind, span: self.span },
        }
    }
}

/// How deeply `Multiple`s nest in an error.
pub open spec fn run_time_height(e: SpecRunTimeErr) -> nat
    decreases e, 1nat,
{
    match e.kind {
        SpecRunTimeErrKind::Multiple(errs) => 1 + run_time_max_height(errs),
        _ => 0,
    }
}

/// The deepest nesting of `Multiple` errors in a list.
pub open spec fn run_time_max_height(errs: Seq<SpecRunTimeErr>) -> nat
    decreases errs, 0nat,
{
    if errs.len() == 0 {
        0
    } else {
        let a = run_time_max_height(errs.drop_last());
        let b = run_time_height(errs.last());
        if a >= b {
            a
        } else {
            b
        }
    }
}

proof fn lemma_run_time_max_height(errs: Seq<SpecRunTimeErr>, k: int)
    requires
        0 <= k < errs.len(),
    ensures
        run_time_height(errs[k]) <= run_time_max_height(errs),
    decreases errs.len(),
{
    if k < errs.len() - 1 {
        lemma_run_time_max_height(errs.drop_last(), k);
        assert(errs.drop_last()[k] == errs[k]);
    }
}

/// The view of a list of run-time errors is taken item by item.
pub proof fn lemma_run_time_errs_view(v: Seq<RunTimeErr>)
    ensures
        run_time_errs_view(v).len() == v.len(),
        forall|k: int|
            0 <= k < v.len() ==> run_time_errs_view(v)[k] == run_time_err_view(#[trigger] v[k]),
    decreases v.len(),
{
    if v.len() > 0 {
        lemma_run_time_errs_view(v.drop_last());
        assert forall|k: int| 0 <= k < v.len() implies run_time_errs_view(v)[k]
            == run_time_err_view(#[trigger] v[k]) by {
            if k < v.len() - 1 {
                assert(v.drop_last()[k] == v[k]);
            }
        }
    }
}

/// The view of a list of run-time errors grows with the list.
pub proof fn lemma_run_time_errs_view_push(v: Seq<RunTimeErr>, x: RunTimeErr)
    ensures
        run_time_errs_view(v.push(x)) == run_time_errs_view(v).push(run_time_err_view(x)),
{
    assert(v.push(x).drop_last() =~= v);
}

/// Removing the first run-time error removes the first item of the view.
pub proof fn lemma_run_time_errs_view_remove_first(v: Seq<RunTimeErr>)
    requires
        v.len() > 0,
    ensures
        run_time_errs_view(v.remove(0)) == run_time_errs_view(v).subrange(1, v.len() as int),
{
    lemma_run_time_errs_view(v);
    lemma_run_time_errs_view(v.remove(0));
    assert forall|k: int| 0 <= k < v.len() - 1 implies run_time_errs_view(v.remove(0))[k]
        == run_time_errs_view(v)[k + 1] by {
        assert(v.remove(0)[k] == v[k + 1]);
    }
    assert(run_time_errs_view(v.remove(0)) =~= run_time_errs_view(v).subrange(
        1,
        v.len() as int,
    ));
}

fn flatten_list_run_time(input: Vec<RunTimeErr>) -> (r: Vec<RunTimeErr>)
    ensures
        run_time_errs_view(r@) == flatten_run_time_list(run_time_errs_view(input@)),
    decreases run_time_max_height(run_time_errs_view(input@)),
{
    let ghost all = run_time_errs_view(input@);
    let ghost bound = run_time_max_height(all);
    let mut errs = input;
    let mut new_errs: Vec<RunTimeErr> = Vec::new();
    let ghost mut done: int = 0;
    proof {
        lemma_run_time_errs_view(errs@);
        assert(all.subrange(0, all.len() as int) =~= all);
        assert(all.take(0) =~= Seq::<SpecRunTimeErr>::empty());
    }
    while errs.len() > 0
        invariant
            0 <= done <= all.len(),
            bound == run_time_max_height(all),
            all == run_time_errs_view(input@),
            run_time_errs_view(errs@) == all.subrange(done, all.len() as int),
            run_time_errs_view(new_errs@) == flatten_run_time_list(all.take(done)),
        decreases errs.len(),
    {
        proof {
            lemma_run_time_errs_view(errs@);
            lemma_run_time_errs_view_remove_first(errs@);
            lemma_run_time_max_height(all, done);
            assert(all.take(done + 1).drop_last() =~= all.take(done));
        }
        let ghost before = new_errs@;
        let e = errs.remove(0);
        let ghost ev = e@;
        assert(ev == all[done]);
        match e.kind {
            RunTimeErrKind::Multiple(children) => {
                let ghost cv = run_time_errs_view(children@);
                let mut children = children;
                let ghost mut m: int = 0;
                proof {
                    assert(cv.subrange(0, cv.len() as int) =~= cv);
                    assert(cv.take(0) =~= Seq::<SpecRunTimeErr>::empty());
                    assert(run_time_errs_view(before) + flatten_each_run_time(cv.take(0))
                        =~= run_time_errs_view(before));
                }
                while children.len() > 0
                    invariant
                        0 <= m <= cv.len(),
                        1 + run_time_max_height(cv) <= bound,
                        bound == run_time_max_height(all),
                        all == run_time_errs_view(input@),
                        run_time_errs_view(children@) == cv.subrange(m, cv.len() as int),
                        run_time_errs_view(new_errs@) == run_time_errs_view(before)
                            + flatten_each_run_time(cv.take(m)),
                    decreases children.len(),
                {
                    proof {
                        lemma_run_time_errs_view(children@);
                        lemma_run_time_errs_view_remove_first(children@);
                        lemma_run_time_max_height(cv, m);
                        assert(cv.take(m + 1).drop_last() =~= cv.take(m));
                    }
                    let c = children.remove(0);
                    assert(c@ == cv[m]);
                    assert(run_time_height(c@) < bound);
                    let fc = c.flatten();
                    proof {
                        lemma_run_time_errs_view_push(new_errs@, fc);
                        assert(run_time_errs_view(before) + flatten_each_run_time(
                            cv.take(m + 1),
                        ) =~= (run_time_errs_view(before) + flatten_each_run_time(
                            cv.take(m),
                        )).push(fc@));
                        m = m + 1;
                    }
                    new_errs.push(fc);
                }
                proof {
                    assert(cv.take(m) =~= cv);
                }
            },
            kind => {
                let kept = RunTimeErr { kind, span: e.span };
                assert(kept@ == ev);
                proof {
                    lemma_run_time_errs_view_push(new_errs@, kept);
                }
                new_errs.push(kept);
            },
        }
        proof {
            done = done + 1;
        }
    }
    proof {
        assert(all.take(done) =~= all);
    }
    new_errs
}

// ---------------------------------------------------------------- single errors

/// An error that is not `Multiple`: one that has a message of its own.
pub open spec fn single_type_check(e: SpecTypeCheckErr) -> bool {
    !(e.kind is Multiple)
}

/// A single error, or a `Multiple` of single errors.
pub open spec fn shallow_type_check(e: SpecTypeCheckErr) -> bool {
    match e.kind {
        SpecTypeCheckErrKind::Multiple(errs) => forall|i: int|
            0 <= i < errs.len() ==> single_type_check(#[trigger] errs[i]),
        _ => true,
    }
}

/// Flattening each of several single errors leaves them as they are.
pub proof fn lemma_flatten_each_singles_type_check(errs: Seq<SpecTypeCheckErr>)
    requires
        forall|i: int| 0 <= i < errs.len() ==> single_type_check(#[trigger] errs[i]),
    ensures
        flatten_each_type_check(errs) == errs,
    decreases errs.len(),
{
    if errs.len() > 0 {
        let init = errs.drop_last();
        assert forall|i: int| 0 <= i < init.len() implies single_type_check(#[trigger] init[i]) by {
            assert(init[i] == errs[i]);
        }
        lemma_flatten_each_singles_type_check(init);
        assert(single_type_check(errs[errs.len() - 1]));
        assert(flatten_type_check_err(errs.last()) == errs.last());
        assert(init.push(errs.last()) =~= errs);
        assert(flatten_each_type_check(errs) == flatten_each_type_check(init).push(flatten_type_check_err(errs.last())));
    } else {
        assert(errs =~= Seq::empty());
    }
}

/// Flattening a `Multiple` whose errors are each single or a `Multiple` of single errors
/// leaves only single errors.
pub proof fn lemma_flatten_shallow_type_check(errs: Seq<SpecTypeCheckErr>)
    requires
        forall|i: int| 0 <= i < errs.len() ==> shallow_type_check(#[trigger] errs[i]),
    ensures
        forall|i: int|
            0 <= i < flatten_type_check_list(errs).len() ==> single_type_check(
                #[trigger] flatten_type_check_list(errs)[i],
            ),
    decreases errs.len(),
{
    if errs.len() > 0 {
        let init = errs.drop_last();
        assert forall|i: int| 0 <= i < init.len() implies shallow_type_check(#[trigger] init[i]) by {
            assert(init[i] == errs[i]);
        }
        lemma_flatten_shallow_type_check(init);
        assert(shallow_type_check(errs[errs.len() - 1]));
        match errs.last().kind {
            SpecTypeCheckErrKind::Multiple(children) => {
                lemma_flatten_each_singles_type_check(children);
            },
            _ => {},
        }
        let a = flatten_type_check_list(init);
        let b = match errs.last().kind {
            SpecTypeCheckErrKind::Multiple(children) => flatten_each_type_check(children),
            _ => seq![errs.last()],
        };
        assert forall|i: int| 0 <= i < (a + b).len() implies single_type_check(#[trigger] (a + b)[i]) by {
            if i >= a.len() {
                assert((a + b)[i] == b[i - a.len()]);
            }
        }
    }
}

/// Flattening a `Multiple` of single errors leaves them as they are.
pub proof fn lemma_flatten_singles_type_check(errs: Seq<SpecTypeCheckErr>)
    requires
        forall|i: int| 0 <= i < errs.len() ==> single_type_check(#[trigger] errs[i]),
    ensures
        flatten_type_check_list(errs) == errs,
    decreases errs.len(),
{
    if errs.len() > 0 {
        let init = errs.drop_last();
        assert forall|i: int| 0 <= i < init.len() implies single_type_check(#[trigger] init[i]) by {
            assert(init[i] == errs[i]);
        }
        lemma_flatten_singles_type_check(init);
        assert(single_type_check(errs[errs.len() - 1]));
        assert(init + seq![errs.last()] =~= errs);
    }
}

/// Flattening is idempotent on errors nested at most two deep: flattening the flat list
/// again changes nothing.
pub proof fn lemma_flatten_type_check_idempotent(errs: Seq<SpecTypeCheckErr>)
    requires
        forall|i: int| 0 <= i < errs.len() ==> shallow_type_check(#[trigger] errs[i]),
    ensures
        flatten_type_check_list(flatten_type_check_list(errs)) == flatten_type_check_list(errs),
{
    lemma_flatten_shallow_type_check(errs);
    lemma_flatten_singles_type_check(flatten_type_check_list(errs));
}

/// A failure that is not `Multiple`.
pub open spec fn single_run_time(e: SpecRunTimeErr) -> bool {
    !(e.kind is Multiple)
}

/// Flattening a list of errors none of which is `Multiple` leaves it unchanged.
pub proof fn lemma_flatten_each_singles_run_time(errs: Seq<SpecRunTimeErr>)
    requires
        forall|i: int| 0 <= i < errs.len() ==> single_run_time(#[trigger] errs[i]),
    ensures
        flatten_each_run_time(errs) == errs,
    decreases errs.len(),
{
    if errs.len() > 0 {
        let init = errs.drop_last();
        assert forall|i: int| 0 <= i < init.len() implies single_run_time(#[trigger] init[i]) by {
            assert(init[i] == errs[i]);
        }
        lemma_flatten_each_singles_run_time(init);
        assert(single_run_time(errs[errs.len() - 1]));
        assert(flatten_run_time_err(errs.last()) == errs.last());
        assert(init.push(errs.last()) =~= errs);
        assert(flatten_each_run_time(errs) == flatten_each_run_time(init).push(flatten_run_time_err(errs.last())));
    } else {
        assert(errs =~= Seq::empty());
    }
}

/// Flattening a `Multiple` of single failures leaves them as they are.
pub proof fn lemma_flatten_singles_run_time(errs: Seq<SpecRunTimeErr>)
    requires
        forall|i: int| 0 <= i < errs.len() ==> single_run_time(#[trigger] errs[i]),
    ensures
        flatten_run_time_list(errs) == errs,
    decreases errs.len(),
{
    if errs.len() > 0 {
        let init = errs.drop_last();
        assert forall|i: int| 0 <= i < init.len() implies single_run_time(#[trigger] init[i]) by {
            assert(init[i] == errs[i]);
        }
        lemma_flatten_singles_run_time(init);
        assert(single_run_time(errs[errs.len() - 1]));
        assert(init + seq![errs.last()] =~= errs);
    }
}

} // verus!
