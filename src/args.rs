//! The backtracking argument parser: binds the argument text to an ordered
//! list of parameter slots, retrying shorter consumptions of earlier slots
//! when a later slot cannot be satisfied.
use vstd::prelude::*;
use crate::text::{chars_of, eq_ascii_ci, skip_ws, skip_whitespace, span_equals, string_of_span};
use crate::token::{
    conversion_error, convert, convert_spec, next_token, pop_spec, pop_value, read_token,
    too_few, too_few_arguments, ArgError, ArgErrorKind, ArgValue, ErrorKindModel, ErrorModel,
    ValueKind, ValueModel,
};

verus! {

/// The shape of one parameter and how it consumes text.
#[derive(Debug)]
pub enum Slot {
    /// Exactly one token.
    Required(ValueKind),
    /// One token if the remaining slots still succeed, else nothing.
    OptionalGreedy(ValueKind),
    /// Nothing if the remaining slots succeed, else one token.
    OptionalLazy(ValueKind),
    /// As many tokens as convert, shortened until the remaining slots succeed.
    Repeated(ValueKind),
    /// All remaining text as one value; fails on empty text.
    RestRequired(ValueKind),
    /// All remaining text as one value, or nothing when none is left.
    RestOptional(ValueKind),
    /// `true` when the next token equals the literal up to ASCII case.
    Flag(String),
}

/// The value bound to one slot.
#[derive(Debug, PartialEq, Eq)]
pub enum Binding {
    Value(ArgValue),
    Optional(Option<ArgValue>),
    Values(Vec<ArgValue>),
    Flag(bool),
}

pub enum BindingModel {
    Value(ValueModel),
    Optional(Option<ValueModel>),
    Values(Seq<ValueModel>),
    Flag(bool),
}

pub open spec fn values_model(v: Seq<ArgValue>) -> Seq<ValueModel> {
    v.map_values(|a: ArgValue| a@)
}

impl View for Binding {
    type V = BindingModel;

    open spec fn view(&self) -> BindingModel {
        match self {
            Binding::Value(v) => BindingModel::Value(v@),
            Binding::Optional(o) => BindingModel::Optional(match o {
                Some(v) => Some(v@),
                None => None,
            }),
            Binding::Values(vs) => BindingModel::Values(values_model(vs@)),
            Binding::Flag(b) => BindingModel::Flag(*b),
        }
    }
}

pub open spec fn bindings_model(b: Seq<Binding>) -> Seq<BindingModel> {
    b.map_values(|x: Binding| x@)
}

/// What a parse attempt yields: one binding per slot, or one error.
pub type Outcome = Result<Seq<BindingModel>, ErrorModel>;

pub open spec fn outcome_model(r: Result<Vec<Binding>, ArgError>) -> Outcome {
    match r {
        Ok(v) => Ok(bindings_model(v@)),
        Err(e) => Err(e@),
    }
}

pub open spec fn prepend(b: BindingModel, r: Outcome) -> Outcome {
    match r {
        Ok(bs) => Ok(seq![b] + bs),
        Err(e) => Err(e),
    }
}

pub open spec fn too_many() -> ErrorModel {
    ErrorModel { kind: ErrorKindModel::TooManyArguments, literal: None }
}

pub open spec fn flag_mismatch(lit: Seq<char>) -> ErrorModel {
    ErrorModel { kind: ErrorKindModel::FlagMismatch(lit), literal: None }
}

/// Tokens of kind `k` taken one after another from `pos` until one fails:
/// their values, the position before each and after the last, and the
/// failure that stopped the run.
pub open spec fn collect(k: ValueKind, s: Seq<char>, pos: int) -> (Seq<ValueModel>, Seq<int>, ErrorModel)
    decreases s.len() - pos,
{
    match pop_spec(k, s, pos) {
        Err(e) => (Seq::empty(), seq![pos], e),
        Ok((v, end)) => if pos < end <= s.len() {
            let c = collect(k, s, end);
            (seq![v] + c.0, seq![pos] + c.1, c.2)
        } else {
            (seq![v], seq![pos, end], too_few())
        },
    }
}

/// The next token matches the flag literal; where it ends.
pub open spec fn flag_hit(s: Seq<char>, pos: int, lit: Seq<char>) -> Option<int> {
    match read_token(s, pos) {
        Some((t, end)) => if eq_ascii_ci(lit, t) { Some(end) } else { None },
        None => None,
    }
}

/// Binds slots `i..` to `s[pos..]`. `err` is the error to report when the
/// text outlasts the slots, which is the last failure met on the way here.
pub open spec fn run_spec(slots: Seq<Slot>, i: int, s: Seq<char>, pos: int, err: ErrorModel) -> Outcome
    decreases slots.len() - i, 1int, 0int,
{
    if i < 0 || i >= slots.len() {
        if skip_ws(s, pos) >= s.len() {
            Ok(Seq::empty())
        } else {
            Err(err)
        }
    } else {
        match slots[i] {
            Slot::Required(k) => match pop_spec(k, s, pos) {
                Ok((v, end)) => prepend(BindingModel::Value(v), run_spec(slots, i + 1, s, end, err)),
                Err(e) => Err(e),
            },
            Slot::OptionalGreedy(k) => match pop_spec(k, s, pos) {
                Ok((v, end)) => match run_spec(slots, i + 1, s, end, err) {
                    Ok(bs) => Ok(seq![BindingModel::Optional(Some(v))] + bs),
                    Err(e1) => prepend(BindingModel::Optional(None), run_spec(slots, i + 1, s, pos, e1)),
                },
                Err(e) => prepend(BindingModel::Optional(None), run_spec(slots, i + 1, s, pos, e)),
            },
            Slot::OptionalLazy(k) => match run_spec(slots, i + 1, s, pos, err) {
                Ok(bs) => Ok(seq![BindingModel::Optional(None)] + bs),
                Err(e1) => match pop_spec(k, s, pos) {
                    Ok((v, end)) => prepend(BindingModel::Optional(Some(v)), run_spec(slots, i + 1, s, end, e1)),
                    Err(e) => Err(e),
                },
            },
            Slot::Repeated(k) => {
                let c = collect(k, s, pos);
                try_counts(slots, i, s, c.0, c.1, c.0.len() as int, c.2)
            },
            Slot::RestRequired(k) => {
                let p = skip_ws(s, pos);
                if p >= s.len() {
                    Err(too_few())
                } else {
                    match convert_spec(k, s.subrange(p, s.len() as int)) {
                        Some(v) => prepend(BindingModel::Value(v), run_spec(slots, i + 1, s, s.len() as int, err)),
                        None => Err(conversion_error(k, s.subrange(p, s.len() as int))),
                    }
                }
            },
            Slot::RestOptional(k) => {
                let p = skip_ws(s, pos);
                if p >= s.len() {
                    prepend(BindingModel::Optional(None), run_spec(slots, i + 1, s, pos, err))
                } else {
                    match convert_spec(k, s.subrange(p, s.len() as int)) {
                        Some(v) => prepend(BindingModel::Optional(Some(v)), run_spec(slots, i + 1, s, s.len() as int, err)),
                        None => Err(conversion_error(k, s.subrange(p, s.len() as int))),
                    }
                }
            },
            Slot::Flag(lit) => match flag_hit(s, pos, lit@) {
                Some(end) => prepend(BindingModel::Flag(true), run_spec(slots, i + 1, s, end, err)),
                None => prepend(BindingModel::Flag(false), run_spec(slots, i + 1, s, pos, flag_mismatch(lit@))),
            },
        }
    }
}

/// A repeated slot at `i` tries its first `j` collected values, then fewer,
/// down to none, until the slots after it succeed on the text that is left.
pub open spec fn try_counts(
    slots: Seq<Slot>,
    i: int,
    s: Seq<char>,
    vals: Seq<ValueModel>,
    ends: Seq<int>,
    j: int,
    err: ErrorModel,
) -> Outcome
    decreases slots.len() - i, 0int, j + 1,
{
    if i < 0 || i >= slots.len() || j < 0 || j >= ends.len() {
        Err(err)
    } else {
        match run_spec(slots, i + 1, s, ends[j], err) {
            Ok(bs) => Ok(seq![BindingModel::Values(vals.subrange(0, j))] + bs),
            Err(e) => try_counts(slots, i, s, vals, ends, j - 1, e),
        }
    }
}

/// What parsing `s` against `slots` yields. Before any slot fails, the error
/// to report is that too many arguments were given.
pub open spec fn parse_spec(slots: Seq<Slot>, s: Seq<char>) -> Outcome {
    run_spec(slots, 0, s, 0, too_many())
}

fn prepend_binding(b: Binding, r: Result<Vec<Binding>, ArgError>) -> (out: Result<Vec<Binding>, ArgError>)
    ensures
        outcome_model(out) == prepend(b@, outcome_model(r)),
{
    match r {
        Ok(v) => {
            let mut v = v;
            let ghost before = v@;
            v.insert(0, b);
            proof { assert(bindings_model(v@) =~= seq![b@] + bindings_model(before)); }
            Ok(v)
        },
        Err(e) => Err(e),
    }
}

pub open spec fn ends_model(e: Seq<usize>) -> Seq<int> {
    e.map_values(|x: usize| x as int)
}

fn collect_values(k: ValueKind, s: &Vec<char>, pos: usize) -> (r: (Vec<ArgValue>, Vec<usize>, ArgError))
    requires
        pos <= s@.len(),
    ensures
        values_model(r.0@) == collect(k, s@, pos as int).0,
        ends_model(r.1@) == collect(k, s@, pos as int).1,
        r.2@ == collect(k, s@, pos as int).2,
        r.1@.len() == r.0@.len() + 1,
        forall|j: int| 0 <= j < r.1@.len() ==> pos <= #[trigger] r.1@[j] <= s@.len(),
    decreases s@.len() - pos,
{
    match pop_value(k, s, pos) {
        Err(e) => {
            let ends = vec![pos];
            proof {
                assert(values_model(Seq::<ArgValue>::empty()) =~= Seq::<ValueModel>::empty());
                assert(ends_model(ends@) =~= seq![pos as int]);
            }
            (Vec::new(), ends, e)
        },
        Ok((v, end)) => {
            let (mut vs, mut es, e) = collect_values(k, s, end);
            let ghost vs0 = vs@;
            let ghost es0 = es@;
            vs.insert(0, v);
            es.insert(0, pos);
            proof {
                assert(values_model(vs@) =~= seq![v@] + values_model(vs0));
                assert(ends_model(es@) =~= seq![pos as int] + ends_model(es0));
                assert forall|j: int| 0 <= j < es@.len() implies pos <= #[trigger] es@[j] <= s@.len() by {
                    if j > 0 {
                        assert(es@[j] == es0[j - 1]);
                    }
                }
            }
            (vs, es, e)
        },
    }
}

fn flag_matches(s: &Vec<char>, pos: usize, lit: &String) -> (r: Option<usize>)
    requires
        pos <= s@.len(),
    ensures
        match r {
            Some(end) => flag_hit(s@, pos as int, lit@) == Some(end as int) && end <= s@.len(),
            None => flag_hit(s@, pos as int, lit@) is None,
        },
{
    match next_token(s, pos) {
        None => None,
        Some((t, end)) => {
            let tc = chars_of(t.as_str());
            let lc = chars_of(lit.as_str());
            let same = span_equals(&lc, &tc, 0, tc.len(), true);
            proof { assert(tc@.subrange(0, tc@.len() as int) =~= tc@); }
            if same {
                Some(end)
            } else {
                None
            }
        },
    }
}

fn run(slots: &Vec<Slot>, i: usize, s: &Vec<char>, pos: usize, err: ArgError) -> (r: Result<Vec<Binding>, ArgError>)
    requires
        pos <= s@.len(),
    ensures
        outcome_model(r) == run_spec(slots@, i as int, s@, pos as int, err@),
    decreases slots@.len() - i,
{
    if i >= slots.len() {
        let p = skip_whitespace(s, pos);
        if p >= s.len() {
            proof { assert(bindings_model(Seq::<Binding>::empty()) =~= Seq::<BindingModel>::empty()); }
            return Ok(Vec::new());
        } else {
            return Err(err);
        }
    }
    match &slots[i] {
        Slot::Required(k) => match pop_value(*k, s, pos) {
            Ok((v, end)) => prepend_binding(Binding::Value(v), run(slots, i + 1, s, end, err)),
            Err(e) => Err(e),
        },
        Slot::OptionalGreedy(k) => {
            let fallback_err = match pop_value(*k, s, pos) {
                Ok((v, end)) => match run(slots, i + 1, s, end, err) {
                    Ok(bs) => {
                        return prepend_binding(Binding::Optional(Some(v)), Ok(bs));
                    },
                    Err(e1) => e1,
                },
                Err(e) => e,
            };
            prepend_binding(Binding::Optional(None), run(slots, i + 1, s, pos, fallback_err))
        },
        Slot::OptionalLazy(k) => match run(slots, i + 1, s, pos, err) {
            Ok(bs) => prepend_binding(Binding::Optional(None), Ok(bs)),
            Err(e1) => match pop_value(*k, s, pos) {
                Ok((v, end)) => prepend_binding(Binding::Optional(Some(v)), run(slots, i + 1, s, end, e1)),
                Err(e) => Err(e),
            },
        },
        Slot::Repeated(k) => {
            let (mut vals, ends, first_err) = collect_values(*k, s, pos);
            let ghost all = values_model(vals@);
            let ghost all_ends = ends_model(ends@);
            let next = i + 1;
            let mut j: usize = vals.len();
            let mut e = first_err;
            loop
                invariant
                    i < slots@.len(),
                    next == i + 1,
                    slots@[i as int] == Slot::Repeated(*k),
                    ends@.len() == all.len() + 1,
                    all_ends == ends_model(ends@),
                    forall|q: int| 0 <= q < ends@.len() ==> pos <= #[trigger] ends@[q] <= s@.len(),
                    j == vals@.len(),
                    j <= all.len(),
                    values_model(vals@) == all.subrange(0, j as int),
                    try_counts(slots@, i as int, s@, all, all_ends, j as int, e@)
                        == run_spec(slots@, i as int, s@, pos as int, err@),
                decreases j,
            {
                proof { assert(all_ends[j as int] == ends@[j as int] as int); }
                let ghost e_before = e@;
                let r = run(slots, next, s, ends[j], e);
                match r {
                    Ok(bs) => {
                        return prepend_binding(Binding::Values(vals), Ok(bs));
                    },
                    Err(e1) => {
                        proof {
                            assert(try_counts(slots@, i as int, s@, all, all_ends, j as int, e_before)
                                == try_counts(slots@, i as int, s@, all, all_ends, j - 1, e1@));
                        }
                        if j == 0 {
                            proof {
                                assert(try_counts(slots@, i as int, s@, all, all_ends, -1, e1@) == Err::<Seq<BindingModel>, ErrorModel>(e1@));
                            }
                            return Err(e1);
                        }
                        vals.pop();
                        proof {
                            assert(values_model(vals@) =~= all.subrange(0, j - 1));
                        }
                        j = j - 1;
                        e = e1;
                    },
                }
            }
        },
        Slot::RestRequired(k) => {
            let p = skip_whitespace(s, pos);
            if p >= s.len() {
                return Err(too_few_arguments());
            }
            let input = string_of_span(s, p, s.len());
            match convert(*k, input) {
                Ok(v) => prepend_binding(Binding::Value(v), run(slots, i + 1, s, s.len(), err)),
                Err(e) => Err(e),
            }
        },
        Slot::RestOptional(k) => {
            let p = skip_whitespace(s, pos);
            if p >= s.len() {
                return prepend_binding(Binding::Optional(None), run(slots, i + 1, s, pos, err));
            }
            let input = string_of_span(s, p, s.len());
            match convert(*k, input) {
                Ok(v) => prepend_binding(Binding::Optional(Some(v)), run(slots, i + 1, s, s.len(), err)),
                Err(e) => Err(e),
            }
        },
        Slot::Flag(lit) => match flag_matches(s, pos, lit) {
            Some(end) => prepend_binding(Binding::Flag(true), run(slots, i + 1, s, end, err)),
            None => {
                let mismatch = ArgError { kind: ArgErrorKind::FlagMismatch(lit.clone()), literal: None };
                prepend_binding(Binding::Flag(false), run(slots, i + 1, s, pos, mismatch))
            },
        },
    }
}

/// Parses the argument text `args` against `slots`: one binding per slot, in
/// order, or the single error met last on the way when no split succeeds.
pub fn parse_prefix_args(args: &str, slots: &Vec<Slot>) -> (r: Result<Vec<Binding>, ArgError>)
    ensures
        outcome_model(r) == parse_spec(slots@, args@),
{
    let s = chars_of(args);
    let base = ArgError { kind: ArgErrorKind::TooManyArguments, literal: None };
    run(slots, 0, &s, 0, base)
}

/// Parsing keeps no state between calls: the same text against the same
/// slots yields the same bindings, or the same error.
pub proof fn lemma_parse_idempotent(slots1: Seq<Slot>, slots2: Seq<Slot>, s1: Seq<char>, s2: Seq<char>)
    requires
        slots1 == slots2,
        s1 == s2,
    ensures
        parse_spec(slots1, s1) == parse_spec(slots2, s2),
{
}

/// A flag slot never backtracks: when the next token is the flag, the slot
/// binds `true` and the outcome is whatever the later slots make of the
/// text after it, with no retry that binds `false`; otherwise it binds
/// `false`, consumes nothing, and a flag mismatch becomes the error to report.
pub proof fn lemma_flag_commits(slots: Seq<Slot>, i: int, s: Seq<char>, pos: int, err: ErrorModel)
    requires
        0 <= i < slots.len(),
        slots[i] is Flag,
    ensures
        match flag_hit(s, pos, slots[i]->Flag_0@) {
            Some(end) => run_spec(slots, i, s, pos, err)
                == prepend(BindingModel::Flag(true), run_spec(slots, i + 1, s, end, err)),
            None => run_spec(slots, i, s, pos, err)
                == prepend(BindingModel::Flag(false), run_spec(slots, i + 1, s, pos, flag_mismatch(slots[i]->Flag_0@))),
        },
{
}

/// A required rest slot that finds only whitespace left fails with too few
/// arguments, whatever the error met before it.
pub proof fn lemma_empty_rest_is_too_few(slots: Seq<Slot>, i: int, s: Seq<char>, pos: int, err: ErrorModel)
    requires
        0 <= i < slots.len(),
        slots[i] is RestRequired,
        skip_ws(s, pos) >= s.len(),
    ensures
        run_spec(slots, i, s, pos, err) == Err::<Seq<BindingModel>, ErrorModel>(too_few()),
{
}

/// A text rest slot binds everything after the leading whitespace verbatim,
/// inner whitespace included, and leaves nothing for later slots.
pub proof fn lemma_text_rest_is_verbatim(slots: Seq<Slot>, i: int, s: Seq<char>, pos: int, err: ErrorModel)
    requires
        0 <= i < slots.len(),
        slots[i] == Slot::RestRequired(ValueKind::Text) || slots[i] == Slot::RestOptional(ValueKind::Text),
        skip_ws(s, pos) < s.len(),
    ensures
        run_spec(slots, i, s, pos, err) == prepend(
            if slots[i] is RestRequired {
                BindingModel::Value(ValueModel::Text(s.subrange(skip_ws(s, pos), s.len() as int)))
            } else {
                BindingModel::Optional(Some(ValueModel::Text(s.subrange(skip_ws(s, pos), s.len() as int))))
            },
            run_spec(slots, i + 1, s, s.len() as int, err),
        ),
{
}

pub open spec fn ok_part(r: Outcome) -> Option<Seq<BindingModel>> {
    match r {
        Ok(bs) => Some(bs),
        Err(_) => None,
    }
}

/// Whether, and with what, slots `i..` succeed does not depend on the error
/// carried in: that only decides which failure is reported.
pub proof fn lemma_success_ignores_error(slots: Seq<Slot>, i: int, s: Seq<char>, pos: int, e1: ErrorModel, e2: ErrorModel)
    ensures
        ok_part(run_spec(slots, i, s, pos, e1)) == ok_part(run_spec(slots, i, s, pos, e2)),
    decreases slots.len() - i,
{
    if 0 <= i < slots.len() {
        match slots[i] {
            Slot::Required(k) => {
                if let Ok((v, end)) = pop_spec(k, s, pos) {
                    lemma_success_ignores_error(slots, i + 1, s, end, e1, e2);
                }
            },
            Slot::OptionalGreedy(k) => {
                if let Ok((v, end)) = pop_spec(k, s, pos) {
                    lemma_success_ignores_error(slots, i + 1, s, end, e1, e2);
                    if let (Err(x1), Err(x2)) = (run_spec(slots, i + 1, s, end, e1), run_spec(slots, i + 1, s, end, e2)) {
                        lemma_success_ignores_error(slots, i + 1, s, pos, x1, x2);
                    }
                }
            },
            Slot::OptionalLazy(k) => {
                lemma_success_ignores_error(slots, i + 1, s, pos, e1, e2);
                if let (Err(x1), Err(x2)) = (run_spec(slots, i + 1, s, pos, e1), run_spec(slots, i + 1, s, pos, e2)) {
                    if let Ok((v, end)) = pop_spec(k, s, pos) {
                        lemma_success_ignores_error(slots, i + 1, s, end, x1, x2);
                    }
                }
            },
            Slot::Repeated(k) => {},
            Slot::RestRequired(k) => {
                lemma_success_ignores_error(slots, i + 1, s, s.len() as int, e1, e2);
            },
            Slot::RestOptional(k) => {
                lemma_success_ignores_error(slots, i + 1, s, pos, e1, e2);
                lemma_success_ignores_error(slots, i + 1, s, s.len() as int, e1, e2);
            },
            Slot::Flag(lit) => {
                if let Some(end) = flag_hit(s, pos, lit@) {
                    lemma_success_ignores_error(slots, i + 1, s, end, e1, e2);
                }
            },
        }
    }
}

proof fn lemma_collect_len(k: ValueKind, s: Seq<char>, pos: int)
    ensures
        collect(k, s, pos).1.len() == collect(k, s, pos).0.len() + 1,
    decreases s.len() - pos,
{
    if let Ok((v, end)) = pop_spec(k, s, pos) {
        if pos < end <= s.len() {
            lemma_collect_len(k, s, end);
        }
    }
}

/// The later slots succeed on the text after `ends[q]`.
pub open spec fn later_succeed(slots: Seq<Slot>, i: int, s: Seq<char>, ends: Seq<int>, q: int) -> bool {
    run_spec(slots, i + 1, s, ends[q], too_many()) is Ok
}

proof fn lemma_try_counts_longest(
    slots: Seq<Slot>,
    i: int,
    s: Seq<char>,
    vals: Seq<ValueModel>,
    ends: Seq<int>,
    j: int,
    err: ErrorModel,
)
    requires
        0 <= i < slots.len(),
        ends.len() == vals.len() + 1,
        -1 <= j <= vals.len(),
    ensures
        match try_counts(slots, i, s, vals, ends, j, err) {
            Ok(bs) => exists|m: int| 0 <= m <= j && bs.len() > 0
                && bs[0] == BindingModel::Values(vals.subrange(0, m))
                && later_succeed(slots, i, s, ends, m)
                && forall|q: int| m < q <= j ==> !#[trigger] later_succeed(slots, i, s, ends, q),
            Err(_) => forall|q: int| 0 <= q <= j ==> !#[trigger] later_succeed(slots, i, s, ends, q),
        },
    decreases j + 1,
{
    if j >= 0 {
        lemma_success_ignores_error(slots, i + 1, s, ends[j], err, too_many());
        assert(try_counts(slots, i, s, vals, ends, j, err) == match run_spec(slots, i + 1, s, ends[j], err) {
            Ok(bs) => Ok(seq![BindingModel::Values(vals.subrange(0, j))] + bs),
            Err(e) => try_counts(slots, i, s, vals, ends, j - 1, e),
        });
        match run_spec(slots, i + 1, s, ends[j], err) {
            Ok(bs) => {
                let r = seq![BindingModel::Values(vals.subrange(0, j))] + bs;
                assert(r[0] == BindingModel::Values(vals.subrange(0, j)));
                assert(later_succeed(slots, i, s, ends, j));
                assert(0 <= j <= j && r.len() > 0 && r[0] == BindingModel::Values(vals.subrange(0, j))
                    && later_succeed(slots, i, s, ends, j)
                    && forall|q: int| j < q <= j ==> !#[trigger] later_succeed(slots, i, s, ends, q));
            },
            Err(e) => {
                assert(!later_succeed(slots, i, s, ends, j));
                lemma_try_counts_longest(slots, i, s, vals, ends, j - 1, e);
                match try_counts(slots, i, s, vals, ends, j - 1, e) {
                    Ok(bs) => {
                        let m = choose|m: int| 0 <= m <= j - 1 && bs.len() > 0
                            && bs[0] == BindingModel::Values(vals.subrange(0, m))
                            && later_succeed(slots, i, s, ends, m)
                            && forall|q: int| m < q <= j - 1 ==> !#[trigger] later_succeed(slots, i, s, ends, q);
                        assert(0 <= m <= j && bs.len() > 0 && bs[0] == BindingModel::Values(vals.subrange(0, m))
                            && later_succeed(slots, i, s, ends, m)
                            && forall|q: int| m < q <= j ==> !#[trigger] later_succeed(slots, i, s, ends, q));
                    },
                    Err(_) => {},
                }
            },
        }
    }
}

/// A repeated slot consumes as many tokens as the later slots allow. Of the
/// values that convert one after another from the current position, it binds
/// the longest run after which the remaining slots succeed; it fails only when
/// they succeed after none of the runs, the empty one included.
pub proof fn lemma_repeated_takes_longest(slots: Seq<Slot>, i: int, s: Seq<char>, pos: int, err: ErrorModel)
    requires
        0 <= i < slots.len(),
        slots[i] is Repeated,
    ensures
        ({
            let c = collect(slots[i]->Repeated_0, s, pos);
            match run_spec(slots, i, s, pos, err) {
                Ok(bs) => exists|m: int| 0 <= m <= c.0.len() && bs.len() > 0
                    && bs[0] == BindingModel::Values(c.0.subrange(0, m))
                    && later_succeed(slots, i, s, c.1, m)
                    && forall|q: int| m < q <= c.0.len() ==> !#[trigger] later_succeed(slots, i, s, c.1, q),
                Err(_) => forall|q: int| 0 <= q <= c.0.len() ==> !#[trigger] later_succeed(slots, i, s, c.1, q),
            }
        }),
{
    let k = slots[i]->Repeated_0;
    let c = collect(k, s, pos);
    lemma_collect_len(k, s, pos);
    lemma_try_counts_longest(slots, i, s, c.0, c.1, c.0.len() as int, c.2);
}

/// A greedy option binds the next value whenever the later slots succeed
/// on the text after it.
pub proof fn lemma_greedy_prefers_value(
    slots: Seq<Slot>,
    i: int,
    s: Seq<char>,
    pos: int,
    err: ErrorModel,
    v: ValueModel,
    end: int,
    bs: Seq<BindingModel>,
)
    requires
        0 <= i < slots.len(),
        slots[i] is OptionalGreedy,
        pop_spec(slots[i]->OptionalGreedy_0, s, pos) == Ok::<(ValueModel, int), ErrorModel>((v, end)),
        run_spec(slots, i + 1, s, end, too_many()) == Ok::<Seq<BindingModel>, ErrorModel>(bs),
    ensures
        run_spec(slots, i, s, pos, err) == Ok::<Seq<BindingModel>, ErrorModel>(seq![BindingModel::Optional(Some(v))] + bs),
{
    lemma_success_ignores_error(slots, i + 1, s, end, err, too_many());
}

/// A lazy option binds nothing whenever the later slots succeed on the text
/// as it is.
pub proof fn lemma_lazy_prefers_nothing(slots: Seq<Slot>, i: int, s: Seq<char>, pos: int, err: ErrorModel, bs: Seq<BindingModel>)
    requires
        0 <= i < slots.len(),
        slots[i] is OptionalLazy,
        run_spec(slots, i + 1, s, pos, too_many()) == Ok::<Seq<BindingModel>, ErrorModel>(bs),
    ensures
        run_spec(slots, i, s, pos, err) == Ok::<Seq<BindingModel>, ErrorModel>(seq![BindingModel::Optional(None)] + bs),
{
    lemma_success_ignores_error(slots, i + 1, s, pos, err, too_many());
}

} // verus!
