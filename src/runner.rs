//! Runs a sequence of test cases in order, stopping at the first failure or
//! running them all and reporting the first failure.
use vstd::prelude::*;
use crate::shadow_test::ShadowTest;

verus! {

/// The formal result of a run whose thunks produced `outs`, in order: the
/// values of all of them, or the first failure among them.
pub open spec fn collect<T, E>(outs: Seq<Result<T, E>>) -> Result<Seq<T>, E>
    decreases outs.len(),
{
    if outs.len() == 0 {
        Ok(Seq::empty())
    } else {
        match collect(outs.drop_last()) {
            Err(e) => Err(e),
            Ok(vs) => match outs.last() {
                Ok(v) => Ok(vs.push(v)),
                Err(e) => Err(e),
            },
        }
    }
}

/// `outs` are the outcomes of the cases that a run over `n` cases executes:
/// all `n` when summarizing; otherwise every case up to and including the
/// first failure, or all of them when none fails.
pub open spec fn executes_as<T, E>(outs: Seq<Result<T, E>>, n: nat, summarize: bool) -> bool {
    if summarize {
        outs.len() == n
    } else {
        &&& outs.len() <= n
        &&& outs.len() == n || collect(outs) is Err
        &&& outs.len() == 0 || collect(outs.drop_last()) is Ok
    }
}

/// Each of `outs` is an outcome that the case at its position can produce.
pub open spec fn outcomes_of<T, E, F: Fn() -> Result<T, E>>(
    tests: Seq<ShadowTest<T, E, F>>,
    outs: Seq<Result<T, E>>,
) -> bool {
    &&& outs.len() <= tests.len()
    &&& forall|i: int| 0 <= i < outs.len() ==> tests[i].can_yield(#[trigger] outs[i])
}

/// A run of `tests` may have executed exactly the cases whose outcomes are
/// `outs`, and returned `r`.
pub open spec fn run_trace<T, E, F: Fn() -> Result<T, E>>(
    tests: Seq<ShadowTest<T, E, F>>,
    summarize: bool,
    outs: Seq<Result<T, E>>,
    r: Result<Seq<T>, E>,
) -> bool {
    &&& outcomes_of(tests, outs)
    &&& executes_as(outs, tests.len(), summarize)
    &&& r == collect(outs)
}

/// The values held by a result, as a sequence.
pub open spec fn result_view<T, E>(r: Result<Vec<T>, E>) -> Result<Seq<T>, E> {
    match r {
        Ok(v) => Ok(v@),
        Err(e) => Err(e),
    }
}

proof fn lemma_collect_push<T, E>(outs: Seq<Result<T, E>>, o: Result<T, E>)
    ensures
        collect(outs.push(o)) == match collect(outs) {
            Err(e) => Err(e),
            Ok(vs) => match o {
                Ok(v) => Ok(vs.push(v)),
                Err(e) => Err(e),
            },
        },
{
    assert(outs.push(o).drop_last() =~= outs);
}

/// Outcomes that all passed collect to their values, position by position.
pub proof fn lemma_collect_all_ok<T, E>(outs: Seq<Result<T, E>>)
    requires
        forall|i: int| 0 <= i < outs.len() ==> (#[trigger] outs[i]) is Ok,
    ensures
        collect(outs) is Ok,
        collect(outs)->Ok_0.len() == outs.len(),
        forall|i: int| 0 <= i < outs.len() ==> outs[i] == Ok::<T, E>(#[trigger] collect(outs)->Ok_0[i]),
    decreases outs.len(),
{
    if outs.len() > 0 {
        let init = outs.drop_last();
        assert forall|i: int| 0 <= i < init.len() implies (#[trigger] init[i]) is Ok by {
            assert(init[i] == outs[i]);
        }
        lemma_collect_all_ok(init);
        let vs = collect(init)->Ok_0;
        assert(outs.last() is Ok);
        assert forall|i: int| 0 <= i < outs.len() implies outs[i] == Ok::<T, E>(
            #[trigger] collect(outs)->Ok_0[i],
        ) by {
            if i < init.len() {
                assert(init[i] == outs[i]);
            }
        }
    }
}

/// Outcomes whose first failure is at position `k` collect to that failure.
pub proof fn lemma_collect_first_failure<T, E>(outs: Seq<Result<T, E>>, k: int)
    requires
        0 <= k < outs.len(),
        forall|i: int| 0 <= i < k ==> (#[trigger] outs[i]) is Ok,
        outs[k] is Err,
    ensures
        collect(outs) == Err::<Seq<T>, E>(outs[k]->Err_0),
    decreases outs.len(),
{
    let init = outs.drop_last();
    if outs.len() == k + 1 {
        assert forall|i: int| 0 <= i < init.len() implies (#[trigger] init[i]) is Ok by {
            assert(init[i] == outs[i]);
        }
        lemma_collect_all_ok(init);
    } else {
        assert forall|i: int| 0 <= i < k implies (#[trigger] init[i]) is Ok by {
            assert(init[i] == outs[i]);
        }
        assert(init[k] == outs[k]);
        lemma_collect_first_failure(init, k);
    }
}

/// When every case can only pass, a run that stops at failures executes every
/// case and returns one value per case, in the order of the cases: the value
/// at position `i` is an outcome of case `i`.
pub proof fn lemma_run_all_passing<T, E, F: Fn() -> Result<T, E>>(
    tests: Seq<ShadowTest<T, E, F>>,
    outs: Seq<Result<T, E>>,
    r: Result<Seq<T>, E>,
)
    requires
        forall|i: int, o: Result<T, E>| 0 <= i < tests.len() && #[trigger] tests[i].can_yield(o) ==> o is Ok,
        run_trace(tests, false, outs, r),
    ensures
        outs.len() == tests.len(),
        r is Ok,
        r->Ok_0.len() == tests.len(),
        forall|i: int| 0 <= i < tests.len() ==> (#[trigger] tests[i]).can_yield(Ok(r->Ok_0[i])),
{
    assert forall|i: int| 0 <= i < outs.len() implies (#[trigger] outs[i]) is Ok by {
        assert(tests[i].can_yield(outs[i]));
    }
    lemma_collect_all_ok(outs);
    assert forall|i: int| 0 <= i < tests.len() implies (#[trigger] tests[i]).can_yield(Ok(r->Ok_0[i])) by {
        assert(tests[i].can_yield(outs[i]));
    }
}

/// When case `k` is the first that can fail, a run that stops at failures
/// executes the cases up to `k` and none after it, and returns the failure of
/// case `k`.
pub proof fn lemma_run_stops_at_first_failure<T, E, F: Fn() -> Result<T, E>>(
    tests: Seq<ShadowTest<T, E, F>>,
    k: int,
    outs: Seq<Result<T, E>>,
    r: Result<Seq<T>, E>,
)
    requires
        0 <= k < tests.len(),
        forall|i: int, o: Result<T, E>| 0 <= i < k && #[trigger] tests[i].can_yield(o) ==> o is Ok,
        forall|o: Result<T, E>| tests[k].can_yield(o) ==> o is Err,
        run_trace(tests, false, outs, r),
    ensures
        outs.len() == k + 1,
        outs[k] is Err,
        tests[k].can_yield(outs[k]),
        r == Err::<Seq<T>, E>(outs[k]->Err_0),
{
    if outs.len() <= k {
        assert forall|i: int| 0 <= i < outs.len() implies (#[trigger] outs[i]) is Ok by {
            assert(tests[i].can_yield(outs[i]));
        }
        lemma_collect_all_ok(outs);
    }
    assert(tests[k].can_yield(outs[k]));
    assert forall|i: int| 0 <= i < k implies (#[trigger] outs[i]) is Ok by {
        assert(tests[i].can_yield(outs[i]));
    }
    if outs.len() > k + 1 {
        let init = outs.drop_last();
        assert forall|i: int| 0 <= i < k implies (#[trigger] init[i]) is Ok by {
            assert(init[i] == outs[i]);
        }
        assert(init[k] == outs[k]);
        lemma_collect_first_failure(init, k);
    }
    lemma_collect_first_failure(outs, k);
}

/// When case `k` is the first that can fail, a summarizing run executes every
/// case, whatever later cases do, and returns the failure of case `k`.
pub proof fn lemma_summarize_runs_all<T, E, F: Fn() -> Result<T, E>>(
    tests: Seq<ShadowTest<T, E, F>>,
    k: int,
    outs: Seq<Result<T, E>>,
    r: Result<Seq<T>, E>,
)
    requires
        0 <= k < tests.len(),
        forall|i: int, o: Result<T, E>| 0 <= i < k && #[trigger] tests[i].can_yield(o) ==> o is Ok,
        forall|o: Result<T, E>| tests[k].can_yield(o) ==> o is Err,
        run_trace(tests, true, outs, r),
    ensures
        outs.len() == tests.len(),
        outs[k] is Err,
        tests[k].can_yield(outs[k]),
        r == Err::<Seq<T>, E>(outs[k]->Err_0),
{
    assert(tests[k].can_yield(outs[k]));
    assert forall|i: int| 0 <= i < k implies (#[trigger] outs[i]) is Ok by {
        assert(tests[i].can_yield(outs[i]));
    }
    lemma_collect_first_failure(outs, k);
}

/// Runs each of `tests` in order. `announce` gets the name of each case before
/// it runs; `report` gets `None` when it passed and its error when it failed.
/// Without `summarize` the run stops at the first failure and returns it; with
/// it, every case runs and the first failure is returned. When none fails the
/// values of all cases come back in order.
pub fn run_tests<T, E, F: Fn() -> Result<T, E>>(
    tests: &[ShadowTest<T, E, F>],
    summarize: bool,
    announce: impl Fn(&str),
    report: impl Fn(Option<&E>),
) -> (r: Result<Vec<T>, E>)
    requires
        forall|i: int| 0 <= i < tests@.len() ==> (#[trigger] tests@[i]).can_run(),
        forall|s: &str| call_requires(announce, (s,)),
        forall|e: Option<&E>| call_requires(report, (e,)),
    ensures
        exists|outs: Seq<Result<T, E>>| run_trace(tests@, summarize, outs, result_view(r)),
{
    let mut results: Vec<T> = Vec::new();
    let mut first_failure: Option<E> = None;
    let ghost mut outs: Seq<Result<T, E>> = Seq::empty();
    let mut i: usize = 0;
    while i < tests.len()
        invariant
            i <= tests@.len(),
            outs.len() == i,
            forall|j: int| 0 <= j < tests@.len() ==> (#[trigger] tests@[j]).can_run(),
            forall|s: &str| call_requires(announce, (s,)),
            forall|e: Option<&E>| call_requires(report, (e,)),
            outcomes_of(tests@, outs),
            summarize || collect(outs) is Ok,
            i == 0 || collect(outs.drop_last()) is Ok || summarize,
            match collect(outs) {
                Ok(vs) => first_failure is None && results@ == vs,
                Err(e) => first_failure == Some(e),
            },
        decreases tests@.len() - i,
    {
        let test = &tests[i];
        announce(test.name());
        let out = test.run();
        proof {
            lemma_collect_push(outs, out);
            assert(outs.push(out).drop_last() =~= outs);
            outs = outs.push(out);
        }
        i = i + 1;
        match out {
            Err(failure) => {
                report(Some(&failure));
                if !summarize {
                    proof {
                        assert(run_trace(tests@, summarize, outs, collect(outs)));
                    }
                    return Err(failure);
                }
                if first_failure.is_none() {
                    first_failure = Some(failure);
                }
            },
            Ok(value) => {
                report(None);
                if first_failure.is_none() {
                    results.push(value);
                }
            },
        }
    }
    proof {
        assert(run_trace(tests@, summarize, outs, collect(outs)));
    }
    match first_failure {
        Some(e) => Err(e),
        None => Ok(results),
    }
}

} // verus!
