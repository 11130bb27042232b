//! Test failures as one report of text.
use vstd::prelude::*;

verus! {

/// Why a test failed: its output differed from what was expected, several tests failed,
/// or it named an identifier that is not bound.
#[derive(Debug)]
pub enum TestError {
    OutputMissmatch { actual: String, expected: String },
    Multiple(Vec<TestError>),
    UndefinedIdentifier(String),
}

/// A test error over mathematical values.
pub enum SpecTestError {
    OutputMissmatch { actual: Seq<char>, expected: Seq<char> },
    Multiple(Seq<SpecTestError>),
    UndefinedIdentifier(Seq<char>),
}

/// The view of a test error.
pub open spec fn test_error_view(e: TestError) -> SpecTestError
    decreases e,
{
    match e {
        TestError::OutputMissmatch { actual, expected } => SpecTestError::OutputMissmatch {
            actual: actual@,
            expected: expected@,
        },
        TestError::Multiple(v) => SpecTestError::Multiple(test_errors_view(v@)),
        TestError::UndefinedIdentifier(i) => SpecTestError::UndefinedIdentifier(i@),
    }
}

/// The views of test errors, in order.
pub open spec fn test_errors_view(v: Seq<TestError>) -> Seq<SpecTestError>
    decreases v,
{
    if v.len() == 0 {
        Seq::empty()
    } else {
        test_errors_view(v.drop_last()).push(test_error_view(v.last()))
    }
}

impl View for TestError {
    type V = SpecTestError;

    open spec fn view(&self) -> SpecTestError {
        test_error_view(*self)
    }
}

/// The report: a mismatch on three lines (what was received and what was expected), the
/// reports of several errors each followed by an empty line, or an identifier on its line.
pub open spec fn test_error_text(e: SpecTestError) -> Seq<char>
    decreases e, 1nat,
{
    match e {
        SpecTestError::OutputMissmatch { actual, expected } => mismatch_report(actual, expected),
        SpecTestError::Multiple(errs) => test_errors_text(errs),
        SpecTestError::UndefinedIdentifier(i) => i + seq!['\n'],
    }
}

/// The reports of several errors, each followed by an empty line.
pub open spec fn test_errors_text(errs: Seq<SpecTestError>) -> Seq<char>
    decreases errs, 0nat,
{
    if errs.len() == 0 {
        Seq::empty()
    } else {
        test_errors_text(errs.drop_last()) + test_error_text(errs.last()) + seq!['\n']
    }
}

/// The report of a mismatch: a header, what was received, what was expected.
pub open spec fn mismatch_report(actual: Seq<char>, expected: Seq<char>) -> Seq<char> {
    seq![
        'T',
        'e',
        's',
        't',
        ' ',
        'f',
        'a',
        'i',
        'l',
        'e',
        'd',
        ':',
        ' ',
        'O',
        'u',
        't',
        'p',
        'u',
        't',
        ' ',
        'm',
        'i',
        's',
        's',
        'm',
        'a',
        't',
        'c',
        'h',
        '\n',
    ] + seq!['R', 'e', 'c', 'i', 'e', 'v', 'e', 'd', ' ', '`'] + actual + seq!['`', '\n'] + seq![
        'E',
        'x',
        'p',
        'e',
        'c',
        't',
        'e',
        'd',
        ' ',
        '`',
    ] + expected + seq!['`', '\n']
}

proof fn lemma_test_errors_view(v: Seq<TestError>)
    ensures
        test_errors_view(v).len() == v.len(),
        forall|k: int| 0 <= k < v.len() ==> test_errors_view(v)[k] == test_error_view(#[trigger] v[k]),
    decreases v.len(),
{
    if v.len() > 0 {
        lemma_test_errors_view(v.drop_last());
        assert forall|k: int| 0 <= k < v.len() implies test_errors_view(v)[k] == test_error_view(
            #[trigger] v[k],
        ) by {
            if k < v.len() - 1 {
                assert(v.drop_last()[k] == v[k]);
            }
        }
    }
}

impl TestError {
    /// The report of this error.
    pub fn to_text(&self) -> (r: String)
        ensures
            r@ == test_error_text(self@),
        decreases self,
    {
        match self {
            TestError::OutputMissmatch { actual, expected } => {
                let mut r = String::from_str("Test failed: Output missmatch\n");
                r.append("Recieved `");
                r.append(actual.as_str());
                r.append("`\n");
                r.append("Expected `");
                r.append(expected.as_str());
                r.append("`\n");
                proof {
                    reveal_strlit("Test failed: Output missmatch\n");
                    reveal_strlit("Recieved `");
                    reveal_strlit("`\n");
                    reveal_strlit("Expected `");
                    assert(r@ =~= mismatch_report(actual@, expected@));
                }
                r
            },
            TestError::Multiple(errs) => {
                let ghost ev = test_errors_view(errs@);
                let mut r = String::new();
                proof {
                    lemma_test_errors_view(errs@);
                    assert(ev.take(0) =~= Seq::<SpecTestError>::empty());
                }
                let mut i: usize = 0;
                while i < errs.len()
                    invariant
                        i <= errs@.len(),
                        *self == TestError::Multiple(*errs),
                        ev == test_errors_view(errs@),
                        ev.len() == errs@.len(),
                        forall|k: int| 0 <= k < errs@.len() ==> ev[k] == test_error_view(#[trigger] errs@[k]),
                        r@ == test_errors_text(ev.take(i as int)),
                    decreases errs@.len() - i,
                {
                    let e: &TestError = &errs[i];
                    proof {
                        assert((*self)->Multiple_0 == *errs);
                        assert(decreases_to!(*self => (*self)->Multiple_0));
                        assert(decreases_to!(*errs => errs@));
                        assert(decreases_to!(errs@ => errs@[i as int]));
                    }
                    let t = e.to_text();
                    r.append(t.as_str());
                    r.append("\n");
                    proof {
                        reveal_strlit("\n");
                        assert(ev.take(i + 1).drop_last() =~= ev.take(i as int));
                        assert(ev.take(i + 1).last() == ev[i as int]);
                        assert(r@ =~= test_errors_text(ev.take(i + 1)));
                    }
                    i = i + 1;
                }
                proof {
                    assert(ev.take(i as int) =~= ev);
                }
                r
            },
            TestError::UndefinedIdentifier(ident) => {
                let mut r = ident.clone();
                r.append("\n");
                proof {
                    reveal_strlit("\n");
                    assert(r@ =~= ident@ + seq!['\n']);
                }
                r
            },
        }
    }
}

} // verus!
