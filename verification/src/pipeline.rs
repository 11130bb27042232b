//! From a script's text to the errors to report and, when there are none that stop it,
//! the syntax tree whose tests run.
use vstd::prelude::*;

use crate::ast::{Module, SpecModule};
use crate::check::check_module;
use crate::chars::{lemma_utf8_len_encode, utf8_len};
use crate::environment::TypeCheckEnv;
use crate::error::{
    RunTimeErr, SpecRunTimeErr, SpecTypeCheckErr, SpecTypeCheckErrKind, TypeCheckErr,
    TypeCheckErrKind, run_time_reason, type_check_errs_view, type_check_reason,
};
use crate::lexer::{
    LexError, SpecLexError, lex, lex_errors_view, lex_expected_list_text,
    lex_expected_message, lexer, token_text,
};
use crate::message::{found_message, found_text};
use crate::chars::push_char;
use crate::parser::{
    ParseError, SpecParseError, expected_list_text, expected_message, parse, parse_module,
    tokens_view,
};
use crate::span::Span;
use crate::TescArgs;

verus! {

/// An error to report, and where.
#[derive(Debug)]
pub struct TescErr {
    pub span: Span,
    pub kind: TescErrKind,
}

#[derive(Debug)]
pub enum TescErrKind {
    Lex(LexError),
    Parse(ParseError),
    TypeCheck(TypeCheckErr),
    RunTime(RunTimeErr),
}

/// The kind of a report, over mathematical values.
pub enum SpecTescErrKind {
    Lex(SpecLexError),
    Parse(SpecParseError),
    TypeCheck(SpecTypeCheckErr),
    RunTime(SpecRunTimeErr),
}

/// A report over mathematical values.
pub struct SpecTescErr {
    pub span: Span,
    pub kind: SpecTescErrKind,
}

impl View for TescErr {
    type V = SpecTescErr;

    open spec fn view(&self) -> SpecTescErr {
        SpecTescErr {
            span: self.span,
            kind: match self.kind {
                TescErrKind::Lex(e) => SpecTescErrKind::Lex(e@),
                TescErrKind::Parse(e) => SpecTescErrKind::Parse(e@),
                TescErrKind::TypeCheck(e) => SpecTescErrKind::TypeCheck(e@),
                TescErrKind::RunTime(e) => SpecTescErrKind::RunTime(e@),
            },
        }
    }
}

/// Reports over mathematical values, in order.
pub open spec fn tesc_errs_view(v: Seq<TescErr>) -> Seq<SpecTescErr> {
    v.map_values(|e: TescErr| e@)
}

/// What to report, and the script to run when nothing stops it.
pub struct Prepared {
    pub errors: Vec<TescErr>,
    pub module: Option<Module>,
}

// ---------------------------------------------------------------- the model

/// Lexing errors as reports at their spans.
pub open spec fn lex_errors(errs: Seq<SpecLexError>) -> Seq<SpecTescErr> {
    errs.map_values(|e: SpecLexError| SpecTescErr { span: e.span, kind: SpecTescErrKind::Lex(e) })
}

/// Type errors as reports at their spans.
pub open spec fn type_errors(errs: Seq<SpecTypeCheckErr>) -> Seq<SpecTescErr> {
    errs.map_values(
        |e: SpecTypeCheckErr| SpecTescErr { span: e.span, kind: SpecTescErrKind::TypeCheck(e) },
    )
}

/// Lexing, then (with tokens) parsing, then (with a tree) type checking: the errors met,
/// in that order, and the tree when type checking raised no `Multiple` error.
pub open spec fn prepare_model(src: Seq<char>) -> (Seq<SpecTescErr>, Option<SpecModule>) {
    let (toks, lerrs) = lex(src);
    let errs = lex_errors(lerrs);
    match toks {
        None => (errs, None),
        Some(ts) => {
            let n = utf8_len(src) as usize;
            match parse_module(ts, Span { start: n, end: n }) {
                Err(pe) => (errs.push(SpecTescErr { span: pe.span, kind: SpecTescErrKind::Parse(pe) }), None),
                Ok(m) => match check_module(m, Seq::empty()).0 {
                    Err(e) => match e.kind {
                        SpecTypeCheckErrKind::Multiple(list) => (errs + type_errors(list), None),
                        _ => (errs, Some(m)),
                    },
                    Ok(_) => (errs, Some(m)),
                },
            }
        },
    }
}

// ---------------------------------------------------------------- the pipeline

/// Lexes, parses and type checks the script `src`.
pub fn prepare(args: &TescArgs, src: &str) -> (r: Prepared)
    ensures
        tesc_errs_view(r.errors@) == prepare_model(src@).0,
        match r.module {
            Some(m) => prepare_model(src@).1 == Some(m@),
            None => prepare_model(src@).1 is None,
        },
{
    let out = lexer(src);
    let mut errors: Vec<TescErr> = Vec::new();
    let mut lerrs = out.errors;
    let ghost lv = lex_errors_view(lerrs@);
    let ghost mut k: int = 0;
    proof {
        assert(lv.subrange(0, lv.len() as int) =~= lv);
        assert(lv.take(0) =~= Seq::<SpecLexError>::empty());
    }
    while lerrs.len() > 0
        invariant
            0 <= k <= lv.len(),
            lex_errors_view(lerrs@) == lv.subrange(k, lv.len() as int),
            tesc_errs_view(errors@) == lex_errors(lv.take(k)),
        decreases lerrs.len(),
    {
        let ghost rest = lerrs@;
        let e = lerrs.remove(0);
        proof {
            assert(rest.len() > 0);
            assert(lex_errors_view(rest).len() == rest.len());
            assert(lex_errors_view(rest) == lv.subrange(k, lv.len() as int));
            assert(k < lv.len());
            assert(lex_errors_view(rest)[0] == e@);
            assert(lex_errors_view(rest)[0] == lv[k]);
            assert(lex_errors_view(lerrs@) =~= lv.subrange(k + 1, lv.len() as int)) by {
                assert forall|j: int| 0 <= j < lerrs@.len() implies lex_errors_view(lerrs@)[j]
                    == lv.subrange(k + 1, lv.len() as int)[j] by {
                    assert(lerrs@[j] == rest[j + 1]);
                    assert(lex_errors_view(lerrs@)[j] == lerrs@[j]@);
                    assert(lex_errors_view(rest)[j + 1] == rest[j + 1]@);
                    assert(lex_errors_view(rest)[j + 1] == lv.subrange(k, lv.len() as int)[j + 1]);
                }
            }
        }
        let ghost before = errors@;
        let t = TescErr { span: e.span, kind: TescErrKind::Lex(e) };
        errors.push(t);
        proof {
            assert(tesc_errs_view(errors@) =~= tesc_errs_view(before).push(t@));
            assert(lex_errors(lv.take(k + 1)) =~= lex_errors(lv.take(k)).push(t@));
            k = k + 1;
        }
    }
    proof {
        assert(lv.take(k) =~= lv);
    }
    let tokens = match out.tokens {
        Some(t) => t,
        None => {
            return Prepared { errors, module: None };
        },
    };
    let n = src.as_bytes().len();
    proof {
        lemma_utf8_len_encode(src@);
        assert(tokens_view(tokens@) =~= lex(src@).0->Some_0);
    }
    let module = match parse(&tokens, n) {
        Ok(m) => m,
        Err(e) => {
            let span = e.span;
            errors.push(TescErr { span, kind: TescErrKind::Parse(e) });
            assert(tesc_errs_view(errors@) =~= prepare_model(src@).0);
            return Prepared { errors, module: None };
        },
    };
    let mut env = TypeCheckEnv::new();
    match module.check(args, &mut env) {
        Err(TypeCheckErr { kind: TypeCheckErrKind::Multiple(list), span: _ }) => {
            let ghost base = tesc_errs_view(errors@);
            let ghost tv = type_check_errs_view(list@);
            let mut list = list;
            let ghost mut k: int = 0;
            proof {
                crate::error::lemma_type_check_errs_view(list@);
                assert(tv.subrange(0, tv.len() as int) =~= tv);
                assert(tv.take(0) =~= Seq::<SpecTypeCheckErr>::empty());
                assert(base + type_errors(tv.take(0)) =~= base);
            }
            while list.len() > 0
                invariant
                    0 <= k <= tv.len(),
                    type_check_errs_view(list@) == tv.subrange(k, tv.len() as int),
                    tesc_errs_view(errors@) == base + type_errors(tv.take(k)),
                decreases list.len(),
            {
                proof {
                    crate::error::lemma_type_check_errs_view(list@);
                    crate::error::lemma_type_check_errs_view_remove_first(list@);
                }
                let e = list.remove(0);
                let span = e.span;
                proof {
                    assert(e@ == tv[k]);
                }
                let ghost before = errors@;
                let t = TescErr { span, kind: TescErrKind::TypeCheck(e) };
                errors.push(t);
                proof {
                    assert(tesc_errs_view(errors@) =~= tesc_errs_view(before).push(t@));
                    assert(type_errors(tv.take(k + 1)) =~= type_errors(tv.take(k)).push(t@));
                    assert(tesc_errs_view(errors@) =~= base + type_errors(tv.take(k + 1)));
                    k = k + 1;
                }
            }
            proof {
                assert(tv.take(k) =~= tv);
            }
            Prepared { errors, module: None }
        },
        _ => Prepared { errors, module: Some(module) },
    }
}

// ---------------------------------------------------------------- reports in order

/// The order of reports: by the start of their span, then by its end.
pub open spec fn span_le(a: Span, b: Span) -> bool {
    a.start < b.start || (a.start == b.start && a.end <= b.end)
}

/// The reports are in span order.
pub open spec fn sorted_by_span(s: Seq<SpecTescErr>) -> bool {
    forall|i: int, j: int| 0 <= i < j < s.len() ==> span_le(s[i].span, s[j].span)
}

/// The reports whose span is `sp`, in order.
pub open spec fn with_span(s: Seq<SpecTescErr>, sp: Span) -> Seq<SpecTescErr>
    decreases s.len(),
{
    if s.len() == 0 {
        Seq::empty()
    } else if s.last().span == sp {
        with_span(s.drop_last(), sp).push(s.last())
    } else {
        with_span(s.drop_last(), sp)
    }
}

/// Taking the reports at a span distributes over concatenation.
pub proof fn lemma_with_span_add(a: Seq<SpecTescErr>, b: Seq<SpecTescErr>, sp: Span)
    ensures
        with_span(a + b, sp) == with_span(a, sp) + with_span(b, sp),
    decreases b.len(),
{
    if b.len() == 0 {
        assert(a + b =~= a);
        assert(with_span(a, sp) + with_span(b, sp) =~= with_span(a, sp));
    } else {
        assert((a + b).drop_last() =~= a + b.drop_last());
        lemma_with_span_add(a, b.drop_last(), sp);
        assert((a + b).last() == b.last());
        if b.last().span == sp {
            assert(with_span(a, sp) + with_span(b.drop_last(), sp).push(b.last()) =~= (with_span(
                a,
                sp,
            ) + with_span(b.drop_last(), sp)).push(b.last()));
        }
    }
}

/// No report at `sp` gives nothing at `sp`.
pub proof fn lemma_with_span_none(b: Seq<SpecTescErr>, sp: Span)
    requires
        forall|k: int| 0 <= k < b.len() ==> (#[trigger] b[k]).span != sp,
    ensures
        with_span(b, sp) == Seq::<SpecTescErr>::empty(),
    decreases b.len(),
{
    if b.len() > 0 {
        lemma_with_span_none(b.drop_last(), sp);
        assert(b.last() == b[b.len() - 1]);
    }
}

/// The reports in the order of their spans; reports with the same span keep their order.
pub fn sort_errors(errs: Vec<TescErr>) -> (r: Vec<TescErr>)
    ensures
        sorted_by_span(tesc_errs_view(r@)),
        forall|sp: Span| #[trigger]
            with_span(tesc_errs_view(r@), sp) == with_span(tesc_errs_view(errs@), sp),
{
    let ghost iv = tesc_errs_view(errs@);
    let mut input = errs;
    let mut out: Vec<TescErr> = Vec::new();
    let ghost mut k: int = 0;
    proof {
        assert(iv.subrange(0, iv.len() as int) =~= iv);
        assert forall|sp: Span| #[trigger]
            with_span(tesc_errs_view(out@), sp) == with_span(iv.take(0), sp) by {
            assert(tesc_errs_view(out@) =~= iv.take(0));
        }
    }
    while input.len() > 0
        invariant
            0 <= k <= iv.len(),
            tesc_errs_view(input@) == iv.subrange(k, iv.len() as int),
            sorted_by_span(tesc_errs_view(out@)),
            forall|sp: Span| #[trigger]
                with_span(tesc_errs_view(out@), sp) == with_span(iv.take(k), sp),
        decreases input.len(),
    {
        let ghost ov = tesc_errs_view(out@);
        let ghost before = input@;
        proof {
            assert(tesc_errs_view(before).len() == before.len());
            assert(tesc_errs_view(before)[0] == before[0]@);
        }
        let x = input.remove(0);
        proof {
            assert(tesc_errs_view(input@) =~= iv.subrange(k + 1, iv.len() as int)) by {
                assert forall|j: int| 0 <= j < input@.len() implies tesc_errs_view(input@)[j]
                    == iv.subrange(k + 1, iv.len() as int)[j] by {
                    assert(input@[j] == before[j + 1]);
                    assert(tesc_errs_view(before)[j + 1] == before[j + 1]@);
                }
            }
            assert(x@ == iv[k]);
        }
        let xs = x.span;
        let mut p: usize = 0;
        while p < out.len() && (out[p].span.start < xs.start || (out[p].span.start == xs.start
            && out[p].span.end <= xs.end))
            invariant
                ov == tesc_errs_view(out@),
                p <= out@.len(),
                forall|j: int| 0 <= j < p ==> span_le(#[trigger] ov[j].span, xs),
            decreases out@.len() - p,
        {
            p = p + 1;
        }
        proof {
            assert forall|j: int| p <= j < ov.len() implies !span_le(#[trigger] ov[j].span, xs) by {
                assert(!span_le(ov[p as int].span, xs));
                if j > p {
                    assert(span_le(ov[p as int].span, ov[j].span));
                }
            }
        }
        let ghost xv = x@;
        out.insert(p, x);
        proof {
            let nv = tesc_errs_view(out@);
            assert(nv =~= ov.take(p as int) + seq![xv] + ov.skip(p as int));
            assert(ov =~= ov.take(p as int) + ov.skip(p as int));
            assert(iv.take(k + 1) =~= iv.take(k) + seq![xv]);
            assert forall|i: int, j: int| 0 <= i < j < nv.len() implies span_le(
                nv[i].span,
                nv[j].span,
            ) by {
                if i < p && j == p {
                } else if i < p && j > p {
                    assert(nv[j] == ov[j - 1]);
                } else if i == p && j > p {
                    assert(nv[j] == ov[j - 1]);
                    assert(!span_le(ov[j - 1].span, xs));
                } else if i > p {
                    assert(nv[i] == ov[i - 1]);
                    assert(nv[j] == ov[j - 1]);
                }
            }
            assert forall|sp: Span| #[trigger]
                with_span(nv, sp) == with_span(iv.take(k + 1), sp) by {
                let a = ov.take(p as int);
                let b = ov.skip(p as int);
                lemma_with_span_add(a + seq![xv], b, sp);
                lemma_with_span_add(a, seq![xv], sp);
                lemma_with_span_add(a, b, sp);
                lemma_with_span_add(iv.take(k), seq![xv], sp);
                assert(seq![xv].drop_last() =~= Seq::<SpecTescErr>::empty());
                if sp == xs {
                    assert forall|j: int| 0 <= j < b.len() implies (#[trigger] b[j]).span != sp by {
                        assert(b[j] == ov[p + j]);
                    }
                    lemma_with_span_none(b, sp);
                    assert(with_span(a + b, sp) =~= with_span(a, sp));
                    assert(with_span(nv, sp) =~= with_span(a, sp) + with_span(seq![xv], sp));
                } else {
                    assert(with_span(Seq::<SpecTescErr>::empty(), sp) == Seq::<SpecTescErr>::empty());
                    assert(with_span(seq![xv], sp) =~= Seq::<SpecTescErr>::empty());
                    assert(with_span(nv, sp) =~= with_span(a, sp) + with_span(b, sp));
                }
            }
            k = k + 1;
        }
    }
    proof {
        assert(iv.take(k) =~= iv);
    }
    out
}

// ---------------------------------------------------------------- messages

/// The message of a report whose type error or failure is not `Multiple`.
pub open spec fn tesc_reason(e: SpecTescErr) -> Seq<char> {
    match e.kind {
        SpecTescErrKind::Lex(le) => found_text(
            match le.found {
                Some(c) => Some(seq![c]),
                None => None,
            },
        ) + seq![' ', 'e', 'x', 'p', 'e', 'c', 't', 'e', 'd', ' '] + lex_expected_list_text(
            le.expected,
        ),
        SpecTescErrKind::Parse(pe) => found_text(
            match pe.found {
                Some(t) => Some(token_text(t)),
                None => None,
            },
        ) + seq![' ', 'e', 'x', 'p', 'e', 'c', 't', 'e', 'd', ' '] + expected_list_text(pe.expected),
        SpecTescErrKind::TypeCheck(te) => type_check_reason(te.kind),
        SpecTescErrKind::RunTime(re) => run_time_reason(re.kind),
    }
}

/// The report holds no `Multiple` type error or failure.
pub open spec fn is_single(e: SpecTescErr) -> bool {
    match e.kind {
        SpecTescErrKind::TypeCheck(te) => !(te.kind is Multiple),
        SpecTescErrKind::RunTime(re) => !(re.kind is Multiple),
        _ => true,
    }
}

impl TescErr {
    /// The message of the report, which must hold no `Multiple` type error or failure.
    pub fn reason(&self) -> (r: String)
        requires
            is_single(self@),
        ensures
            r@ == tesc_reason(self@),
    {
        match &self.kind {
            TescErrKind::Lex(le) => {
                let what = match le.found {
                    Some(c) => {
                        let mut s = String::new();
                        push_char(&mut s, c);
                        assert(s@ =~= seq![c]);
                        Some(s)
                    },
                    None => None,
                };
                let mut r = found_message(what);
                r.append(" expected ");
                let list = lex_expected_message(&le.expected);
                r.append(list.as_str());
                proof {
                    reveal_strlit(" expected ");
                    assert(r@ =~= tesc_reason(self@));
                }
                r
            },
            TescErrKind::Parse(pe) => {
                let what = match &pe.found {
                    Some(t) => Some(t.to_text()),
                    None => None,
                };
                let mut r = found_message(what);
                r.append(" expected ");
                let list = expected_message(&pe.expected);
                r.append(list.as_str());
                proof {
                    reveal_strlit(" expected ");
                    assert(r@ =~= tesc_reason(self@));
                }
                r
            },
            TescErrKind::TypeCheck(te) => te.reason(),
            TescErrKind::RunTime(re) => re.reason(),
        }
    }
}

} // verus!
