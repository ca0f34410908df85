//! Laws of work that was done in parallel.
use crate::error::Error;
use crate::laws::lists;
use crate::parallel;
use vstd::prelude::*;

verus! {

proof fn lemma_failures(results: Seq<Result<(), Error>>)
    ensures
        parallel::failures(results) == results.filter(
            |r: Result<(), Error>| r is Err,
        ).map_values(|r: Result<(), Error>| r->Err_0),
    decreases results.len(),
{
    let failed = |r: Result<(), Error>| r is Err;
    let why = |r: Result<(), Error>| r->Err_0;
    if results.len() == 0 {
        lists::lemma_filter_none(failed);
        assert(results =~= Seq::empty());
        assert(parallel::failures(results) =~= results.filter(failed).map_values(why));
    } else {
        lists::lemma_filter_last(results, failed);
        lemma_failures(results.drop_last());
        assert(parallel::failures(results) =~= results.filter(failed).map_values(why));
    }
}

proof fn lemma_first(results: Seq<Result<(), Error>>, i: int)
    requires
        0 <= i < results.len(),
        results[i] is Err,
        forall|j: int| 0 <= j < i ==> results[j] is Ok,
    ensures
        parallel::failures(results).len() > 0,
        parallel::failures(results)[0] == results[i]->Err_0,
    decreases results.len(),
{
    let rest = results.drop_last();
    if i < rest.len() {
        assert(rest[i] == results[i]);
        assert forall|j: int| 0 <= j < i implies rest[j] is Ok by {
            assert(rest[j] == results[j]);
        }
        lemma_first(rest, i);
    } else {
        assert forall|j: int| 0 <= j < rest.len() implies rest[j] is Ok by {
            assert(rest[j] == results[j]);
        }
        lemma_none(rest);
    }
}

proof fn lemma_none(results: Seq<Result<(), Error>>)
    requires
        forall|j: int| 0 <= j < results.len() ==> results[j] is Ok,
    ensures
        parallel::failures(results).len() == 0,
    decreases results.len(),
{
    if results.len() > 0 {
        let rest = results.drop_last();
        assert forall|j: int| 0 <= j < rest.len() implies rest[j] is Ok by {
            assert(rest[j] == results[j]);
        }
        lemma_none(rest);
        assert(results[results.len() - 1] is Ok);
    }
}

/// The verdict on work done in parallel is its first failure, in the order of the work and not
/// of the time; it is good exactly where nothing failed.
pub proof fn the_first_failure_is_the_verdict(
    results: Seq<Result<(), Error>>,
    verdict: Result<(), Error>,
    told: Seq<Seq<char>>,
    i: int,
)
    requires
        parallel::comes_to(results, verdict, told),
    ensures
        0 <= i < results.len() && results[i] is Err && (forall|j: int|
            0 <= j < i ==> results[j] is Ok) ==> verdict == results[i],
        (forall|j: int| 0 <= j < results.len() ==> results[j] is Ok) ==> verdict is Ok
            && told.len() == 0,
{
    if 0 <= i < results.len() && results[i] is Err && (forall|j: int|
        0 <= j < i ==> results[j] is Ok) {
        lemma_first(results, i);
    }
    if forall|j: int| 0 <= j < results.len() ==> results[j] is Ok {
        lemma_none(results);
    }
}

/// Every failure but the first is told, in order.
pub proof fn the_other_failures_are_told(
    results: Seq<Result<(), Error>>,
    verdict: Result<(), Error>,
    told: Seq<Seq<char>>,
)
    requires
        parallel::comes_to(results, verdict, told),
        verdict is Err,
    ensures
        ({
            let failed = results.filter(|r: Result<(), Error>| r is Err);
            &&& failed.len() > 0
            &&& told.len() == failed.len() - 1
            &&& forall|k: int|
                0 <= k < told.len() ==> #[trigger] told[k] == "(also) "@
                    + failed[k + 1]->Err_0.message@
        }),
{
    lemma_failures(results);
    let errors = parallel::failures(results);
    let failed = results.filter(|r: Result<(), Error>| r is Err);
    assert(errors.len() == failed.len());
    assert(errors.drop_first().len() == errors.len() - 1);
    assert forall|k: int| 0 <= k < told.len() implies #[trigger] told[k] == "(also) "@
        + failed[k + 1]->Err_0.message@ by {
        assert(errors.drop_first()[k] == errors[k + 1]);
        assert(errors[k + 1] == failed[k + 1]->Err_0);
    }
}

} // verus!
