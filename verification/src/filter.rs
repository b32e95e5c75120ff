use vstd::prelude::*;

use crate::json::{doc_lookup, Json, JsonV, arr_views};
use crate::text::skip_ws;

verus! {

broadcast use crate::json::group_json_views;

// --- A small filter sublanguage ---------------------------------------
//
// A filter is a pipeline of steps separated by `|`.  A step is `.` (keep
// the document), `.key` (take a field; a missing key yields null),
// `.[]` (splice the elements of an array) or `.key[]` (both).  Evaluating
// a field step on a non-object, or a splice on a non-array, is an
// evaluation error.  This is the escape hatch beside the fixed query
// kinds: it runs against the whole serialized store.  The sublanguage is
// deliberately this small — field access, splicing and pipes; any other
// construct in an expression is refused as a syntax error naming it.

/// One step of a pipeline.
#[derive(Debug, PartialEq)]
pub enum Step {
    /// `.` — keep the document.
    Keep,
    /// `.key` — the field, or null where the object lacks it.
    Field(String),
    /// `.[]` — the elements of an array.
    Splice,
    /// `.key[]` — the elements of the array under the field.
    FieldSplice(String),
}

/// Mathematical image of a [`Step`].
#[verifier::ext_equal]
pub enum StepV {
    Keep,
    Field(Seq<char>),
    Splice,
    FieldSplice(Seq<char>),
}

impl View for Step {
    type V = StepV;

    open spec fn view(&self) -> StepV {
        match self {
            Step::Keep => StepV::Keep,
            Step::Field(k) => StepV::Field(k@),
            Step::Splice => StepV::Splice,
            Step::FieldSplice(k) => StepV::FieldSplice(k@),
        }
    }
}

/// A character that may stand in a field name.
pub open spec fn is_ident_char(c: char) -> bool {
    ('a' <= c && c <= 'z') || ('A' <= c && c <= 'Z') || ('0' <= c && c <= '9') || c == '_'
}

/// The longest field-name prefix and the rest.
pub open spec fn take_ident(s: Seq<char>) -> (Seq<char>, Seq<char>)
    decreases s.len(),
{
    if s.len() > 0 && is_ident_char(s[0]) {
        let (d, r) = take_ident(s.drop_first());
        (seq![s[0]] + d, r)
    } else {
        (Seq::empty(), s)
    }
}

/// One parsed step and the rest of the text.
pub open spec fn parse_step(s: Seq<char>) -> Option<(StepV, Seq<char>)> {
    if s.len() == 0 || s[0] != '.' {
        None
    } else {
        let t = s.drop_first();
        if t.len() >= 2 && t[0] == '[' && t[1] == ']' {
            Some((StepV::Splice, t.skip(2)))
        } else {
            let (id, r) = take_ident(t);
            if id.len() == 0 {
                Some((StepV::Keep, t))
            } else if r.len() >= 2 && r[0] == '[' && r[1] == ']' {
                Some((StepV::FieldSplice(id), r.skip(2)))
            } else {
                Some((StepV::Field(id), r))
            }
        }
    }
}

/// A parsed pipeline: steps separated by `|`, with whitespace allowed
/// around every step.
pub open spec fn parse_pipeline(s: Seq<char>) -> Option<Seq<StepV>>
    decreases s.len(),
{
    let t = skip_ws(s);
    if t.len() > s.len() {
        None
    } else {
        match parse_step(t) {
            None => None,
            Some((step, r0)) => {
                let r = skip_ws(r0);
                if r.len() == 0 {
                    Some(seq![step])
                } else if r[0] == '|' && r.len() < s.len() {
                    match parse_pipeline(r.drop_first()) {
                        None => None,
                        Some(rest) => Some(seq![step] + rest),
                    }
                } else {
                    None
                }
            },
        }
    }
}

/// One step applied to one document.
pub open spec fn apply_step(step: StepV, d: JsonV) -> Option<Seq<JsonV>> {
    match step {
        StepV::Keep => Some(seq![d]),
        StepV::Field(k) => match d {
            JsonV::Obj(ms) => match crate::json::obj_lookup(ms, k) {
                Some(v) => Some(seq![v]),
                None => Some(seq![JsonV::Null]),
            },
            _ => None,
        },
        StepV::Splice => match d {
            JsonV::Arr(items) => Some(items),
            _ => None,
        },
        StepV::FieldSplice(k) => match d {
            JsonV::Obj(ms) => match crate::json::obj_lookup(ms, k) {
                Some(JsonV::Arr(items)) => Some(items),
                _ => None,
            },
            _ => None,
        },
    }
}

/// One step applied to a stream of documents, outputs spliced in order.
pub open spec fn apply_step_all(step: StepV, ds: Seq<JsonV>) -> Option<Seq<JsonV>>
    decreases ds.len(),
{
    if ds.len() == 0 {
        Some(Seq::empty())
    } else {
        match (apply_step(step, ds[0]), apply_step_all(step, ds.drop_first())) {
            (Some(first), Some(rest)) => Some(first + rest),
            _ => None,
        }
    }
}

/// A pipeline applied to a stream, step by step.
pub open spec fn eval_pipeline(steps: Seq<StepV>, ds: Seq<JsonV>) -> Option<Seq<JsonV>>
    decreases steps.len(),
{
    if steps.len() == 0 {
        Some(ds)
    } else {
        match apply_step_all(steps[0], ds) {
            None => None,
            Some(out) => eval_pipeline(steps.drop_first(), out),
        }
    }
}

// --- Executable parser and evaluator ----------------------------------

/// Whether the character at `k` may stand in a field name.
fn ident_at(s: &[char], k: usize) -> (r: bool)
    requires
        k < s@.len(),
    ensures
        r == is_ident_char(s@[k as int]),
{
    let c = s[k];
    ('a' <= c && c <= 'z') || ('A' <= c && c <= 'Z') || ('0' <= c && c <= '9') || c == '_'
}

/// One parsed step, executably.
#[verifier::loop_isolation(false)]
fn p_step<'a>(s: &'a [char]) -> (r: Option<(Step, &'a [char])>)
    ensures
        match r {
            Some(p) => parse_step(s@) matches Some(q) && p.0@ == q.0 && p.1@ == q.1,
            None => parse_step(s@) is None,
        },
{
    if s.len() == 0 {
        return None;
    }
    if s[0] != '.' {
        return None;
    }
    let t = &s[1..s.len()];
    proof {
        assert(t@ =~= s@.drop_first());
    }
    if t.len() >= 2 && t[0] == '[' && t[1] == ']' {
        let rest = &t[2..t.len()];
        proof {
            assert(rest@ =~= t@.skip(2));
        }
        return Some((Step::Splice, rest));
    }
    let mut k: usize = 0;
    while k < t.len() && ident_at(t, k)
        invariant
            k <= t@.len(),
            forall|j: int| 0 <= j < k ==> is_ident_char(#[trigger] t@[j]),
        decreases t@.len() - k,
    {
        k = k + 1;
    }
    proof {
        lemma_take_ident_count(t@, k as int);
    }
    if k == 0 {
        return Some((Step::Keep, t));
    }
    let mut id_chars: Vec<char> = Vec::new();
    let mut i: usize = 0;
    while i < k
        invariant
            i <= k,
            k <= t@.len(),
            id_chars@ =~= t@.take(k as int).take(i as int),
        decreases k - i,
    {
        id_chars.push(t[i]);
        proof {
            assert(t@.take(k as int).take(i as int + 1) =~= t@.take(k as int).take(i as int).push(
                t@[i as int],
            ));
        }
        i = i + 1;
    }
    proof {
        assert(t@.take(k as int).take(k as int) =~= t@.take(k as int));
    }
    let id = crate::text::string_from_chars(&id_chars);
    let r0 = &t[k..t.len()];
    proof {
        assert(r0@ =~= t@.skip(k as int));
    }
    if r0.len() >= 2 && r0[0] == '[' && r0[1] == ']' {
        let rest = &r0[2..r0.len()];
        proof {
            assert(rest@ =~= r0@.skip(2));
        }
        Some((Step::FieldSplice(id), rest))
    } else {
        Some((Step::Field(id), r0))
    }
}

/// Counting the leading identifier characters computes the split that
/// `take_ident` makes.
pub proof fn lemma_take_ident_count(t: Seq<char>, k: int)
    requires
        0 <= k <= t.len(),
        forall|j: int| 0 <= j < k ==> is_ident_char(#[trigger] t[j]),
        k == t.len() || !is_ident_char(t[k]),
    ensures
        take_ident(t) == (t.take(k), t.skip(k)),
    decreases k,
{
    if k == 0 {
        assert(t.take(0) =~= Seq::<char>::empty());
        assert(t.skip(0) =~= t);
    } else {
        assert(is_ident_char(t[0]));
        let d = t.drop_first();
        assert(forall|j: int| 0 <= j < k - 1 ==> #[trigger] d[j] == t[j + 1]);
        lemma_take_ident_count(d, k - 1);
        assert(seq![t[0]] + d.take(k - 1) =~= t.take(k));
        assert(d.skip(k - 1) =~= t.skip(k));
    }
}

/// A parsed pipeline, executably.
#[verifier::loop_isolation(false)]
fn p_pipeline<'a>(s: &'a [char]) -> (r: Option<Vec<Step>>)
    ensures
        match r {
            Some(steps) => parse_pipeline(s@) matches Some(q) && Seq::new(
                steps@.len(),
                |k: int| steps@[k]@,
            ) == q,
            None => parse_pipeline(s@) is None,
        },
    decreases s@.len(),
{
    let t = crate::text::skip_ws_exec(s);
    if t.len() > s.len() {
        return None;
    }
    match p_step(t) {
        None => None,
        Some((step, r0)) => {
            let r = crate::text::skip_ws_exec(r0);
            if r.len() == 0 {
                let mut steps: Vec<Step> = Vec::new();
                steps.push(step);
                proof {
                    assert(Seq::new(steps@.len(), |k: int| steps@[k]@) =~= seq![step@]);
                }
                Some(steps)
            } else if r[0] == '|' && r.len() < s.len() {
                proof {
                    assert(r@.drop_first() =~= r@.subrange(1, r@.len() as int));
                }
                match p_pipeline(&r[1..r.len()]) {
                    None => None,
                    Some(rest) => {
                        let mut steps: Vec<Step> = Vec::new();
                        steps.push(step);
                        let mut rest = rest;
                        let ghost restv = Seq::new(rest@.len(), |k: int| rest@[k]@);
                        let mut i: usize = 0;
                        while i < rest.len()
                            invariant
                                i <= rest@.len(),
                                restv == Seq::new(rest@.len(), |k: int| rest@[k]@),
                                steps@.len() == i + 1,
                                Seq::new(steps@.len(), |k: int| steps@[k]@) =~= seq![step@]
                                    + restv.take(i as int),
                            decreases rest@.len() - i,
                        {
                            let ghost prev = steps@;
                            let st = match &rest[i] {
                                Step::Keep => Step::Keep,
                                Step::Field(k) => Step::Field(k.clone()),
                                Step::Splice => Step::Splice,
                                Step::FieldSplice(k) => Step::FieldSplice(k.clone()),
                            };
                            proof {
                                assert(st@ == rest@[i as int]@);
                            }
                            steps.push(st);
                            proof {
                                assert(restv.take(i as int + 1) =~= restv.take(i as int).push(
                                    restv[i as int],
                                ));
                                assert forall|q: int| 0 <= q < steps@.len() implies Seq::new(
                                    steps@.len(),
                                    |k: int| steps@[k]@,
                                )[q] == #[trigger] ((seq![step@] + restv.take(i as int + 1))[q]) by {
                                    if q < prev.len() {
                                        assert(Seq::new(prev.len(), |k: int| prev[k]@)[q] == (
                                        seq![step@] + restv.take(i as int))[q]);
                                        assert(steps@[q] == prev[q]);
                                    } else {
                                        assert(steps@[q] == st);
                                    }
                                }
                                assert(Seq::new(steps@.len(), |k: int| steps@[k]@) =~= seq![step@]
                                    + restv.take(i as int + 1));
                            }
                            i = i + 1;
                        }
                        proof {
                            assert(restv.take(restv.len() as int) =~= restv);
                        }
                        Some(steps)
                    },
                }
            } else {
                None
            }
        },
    }
}

/// One step applied to one document, executably; results are clones.
fn apply_step_exec(step: &Step, d: &Json) -> (r: Option<Vec<Json>>)
    ensures
        match r {
            Some(out) => apply_step(step@, d@) matches Some(q) && arr_views(out@) == q,
            None => apply_step(step@, d@) is None,
        },
{
    match step {
        Step::Keep => {
            let mut out: Vec<Json> = Vec::new();
            out.push(d.clone());
            proof {
                assert(arr_views(out@) =~= seq![d@]);
            }
            Some(out)
        },
        Step::Field(k) => match d {
            Json::Obj(_) => {
                let mut out: Vec<Json> = Vec::new();
                match d.get(k) {
                    Some(v) => out.push(v.clone()),
                    None => out.push(Json::Null),
                }
                proof {
                    assert(d@ is Obj);
                    match crate::json::obj_lookup(d@->Obj_0, k@) {
                        Some(v) => {
                            assert(arr_views(out@) =~= seq![v]);
                        },
                        None => {
                            assert(arr_views(out@) =~= seq![JsonV::Null]);
                        },
                    }
                }
                Some(out)
            },
            _ => None,
        },
        Step::Splice => match d {
            Json::Arr(items) => {
                let mut out: Vec<Json> = Vec::new();
                let mut i: usize = 0;
                proof {
                    assert(d@ == JsonV::Arr(arr_views(items@)));
                }
                while i < items.len()
                    invariant
                        i <= items@.len(),
                        arr_views(out@) =~= arr_views(items@).take(i as int),
                    decreases items@.len() - i,
                {
                    let ghost prev = out@;
                    out.push(items[i].clone());
                    proof {
                        assert(arr_views(items@).take(i as int + 1) =~= arr_views(
                            items@,
                        ).take(i as int).push(arr_views(items@)[i as int]));
                        assert(arr_views(out@) =~= arr_views(prev).push(items@[i as int]@));
                    }
                    i = i + 1;
                }
                proof {
                    assert(arr_views(items@).take(arr_views(items@).len() as int) =~= arr_views(
                        items@,
                    ));
                }
                Some(out)
            },
            _ => None,
        },
        Step::FieldSplice(k) => match d {
            Json::Obj(_) => {
                proof {
                    assert(d@ is Obj);
                }
                match d.get(k) {
                    Some(v) => match v {
                        Json::Arr(items) => {
                            proof {
                                assert(v@ == JsonV::Arr(arr_views(items@)));
                            }
                            let mut out: Vec<Json> = Vec::new();
                            let mut i: usize = 0;
                            while i < items.len()
                                invariant
                                    i <= items@.len(),
                                    arr_views(out@) =~= arr_views(items@).take(i as int),
                                decreases items@.len() - i,
                            {
                                let ghost prev = out@;
                                out.push(items[i].clone());
                                proof {
                                    assert(arr_views(items@).take(i as int + 1) =~= arr_views(
                                        items@,
                                    ).take(i as int).push(arr_views(items@)[i as int]));
                                    assert(arr_views(out@) =~= arr_views(prev).push(
                                        items@[i as int]@,
                                    ));
                                }
                                i = i + 1;
                            }
                            proof {
                                assert(arr_views(items@).take(arr_views(items@).len() as int)
                                    =~= arr_views(items@));
                            }
                            Some(out)
                        },
                        _ => None,
                    },
                    None => None,
                }
            },
            _ => None,
        },
    }
}

/// One step over a stream, executably.
#[verifier::loop_isolation(false)]
fn apply_step_all_exec(step: &Step, ds: &Vec<Json>) -> (r: Option<Vec<Json>>)
    ensures
        match r {
            Some(out) => apply_step_all(step@, arr_views(ds@)) matches Some(q) && arr_views(out@)
                == q,
            None => apply_step_all(step@, arr_views(ds@)) is None,
        },
{
    let ghost full = arr_views(ds@);
    let mut out: Vec<Json> = Vec::new();
    let mut i: usize = 0;
    proof {
        assert(full.skip(0) =~= full);
    }
    while i < ds.len()
        invariant
            i <= ds@.len(),
            apply_step_all(step@, full) == match apply_step_all(step@, full.skip(i as int)) {
                Some(t) => Some(arr_views(out@) + t),
                None => None,
            },
        decreases ds@.len() - i,
    {
        let ghost rest = full.skip(i as int);
        proof {
            assert(rest[0] == full[i as int]);
            assert(full[i as int] == ds@[i as int]@);
            assert(rest.drop_first() =~= full.skip(i as int + 1));
        }
        match apply_step_exec(step, &ds[i]) {
            None => {
                return None;
            },
            Some(produced) => {
                let ghost prev = out@;
                let ghost pv = arr_views(produced@);
                let mut produced = produced;
                let mut j: usize = 0;
                while j < produced.len()
                    invariant
                        j <= produced@.len(),
                        pv == arr_views(produced@),
                        arr_views(out@) =~= arr_views(prev) + pv.take(j as int),
                    decreases produced@.len() - j,
                {
                    let ghost before = out@;
                    out.push(produced[j].clone());
                    proof {
                        assert(pv.take(j as int + 1) =~= pv.take(j as int).push(pv[j as int]));
                        assert(arr_views(out@) =~= arr_views(before).push(produced@[j as int]@));
                    }
                    j = j + 1;
                }
                proof {
                    assert(pv.take(pv.len() as int) =~= pv);
                    match apply_step_all(step@, full.skip(i as int + 1)) {
                        Some(t) => {
                            assert(arr_views(prev) + (pv + t) =~= arr_views(out@) + t);
                        },
                        None => {},
                    }
                }
            },
        }
        i = i + 1;
    }
    proof {
        assert(full.skip(full.len() as int).len() == 0);
        match apply_step_all(step@, full.skip(ds@.len() as int)) {
            Some(t) => {
                assert(arr_views(out@) + t =~= arr_views(out@));
            },
            None => {},
        }
    }
    Some(out)
}

/// A pipeline over a stream, executably.
#[verifier::loop_isolation(false)]
fn eval_pipeline_exec(steps: &Vec<Step>, start: Vec<Json>) -> (r: Option<Vec<Json>>)
    ensures
        match r {
            Some(out) => eval_pipeline(
                Seq::new(steps@.len(), |k: int| steps@[k]@),
                arr_views(start@),
            ) matches Some(q) && arr_views(out@) == q,
            None => eval_pipeline(
                Seq::new(steps@.len(), |k: int| steps@[k]@),
                arr_views(start@),
            ) is None,
        },
{
    let ghost sv = Seq::new(steps@.len(), |k: int| steps@[k]@);
    let mut cur = start;
    let mut i: usize = 0;
    proof {
        assert(sv.skip(0) =~= sv);
    }
    while i < steps.len()
        invariant
            i <= steps@.len(),
            sv == Seq::new(steps@.len(), |k: int| steps@[k]@),
            eval_pipeline(sv, arr_views(start@)) == eval_pipeline(
                sv.skip(i as int),
                arr_views(cur@),
            ),
        decreases steps@.len() - i,
    {
        let ghost rest = sv.skip(i as int);
        proof {
            assert(rest[0] == sv[i as int]);
            assert(sv[i as int] == steps@[i as int]@);
            assert(rest.drop_first() =~= sv.skip(i as int + 1));
        }
        match apply_step_all_exec(&steps[i], &cur) {
            None => {
                proof {
                    assert(eval_pipeline(rest, arr_views(cur@)) is None);
                }
                return None;
            },
            Some(next) => {
                cur = next;
            },
        }
        i = i + 1;
    }
    proof {
        assert(sv.skip(sv.len() as int).len() == 0);
    }
    Some(cur)
}

/// Runs a raw filter expression against a document: the parsed pipeline,
/// evaluated on the document alone.  `Ok` carries the output documents in
/// order; a malformed expression and an evaluation-time type error each
/// name the expression.
pub fn run_filter(doc: &Json, expr: &String) -> (r: Result<
    Vec<Json>,
    crate::errors::StoreError,
>)
    ensures
        match r {
            Ok(out) => parse_pipeline(expr@) matches Some(steps) && eval_pipeline(
                steps,
                seq![doc@],
            ) == Some(arr_views(out@)),
            Err(e) => {
                if parse_pipeline(expr@) is None {
                    e@ == crate::errors::StoreErrorV::FilterSyntax { expr: expr@ }
                } else {
                    e@ == crate::errors::StoreErrorV::FilterEval { expr: expr@ } && eval_pipeline(
                        parse_pipeline(expr@)->Some_0,
                        seq![doc@],
                    ) is None
                }
            },
        },
{
    let cs = crate::text::str_chars(expr.as_str());
    let steps = match p_pipeline(cs.as_slice()) {
        Some(steps) => steps,
        None => {
            return Err(crate::errors::StoreError::FilterSyntax { expr: expr.clone() });
        },
    };
    let mut start: Vec<Json> = Vec::new();
    start.push(doc.clone());
    proof {
        assert(arr_views(start@) =~= seq![doc@]);
    }
    match eval_pipeline_exec(&steps, start) {
        Some(out) => Ok(out),
        None => Err(crate::errors::StoreError::FilterEval { expr: expr.clone() }),
    }
}

} // verus!
