//! What parallel work comes to.
use crate::error::Error;
use crate::text;
use vstd::prelude::*;

verus! {

/// The failures among results, in their order.
pub open spec fn failures(results: Seq<Result<(), Error>>) -> Seq<Error>
    decreases results.len(),
{
    if results.len() == 0 {
        seq![]
    } else {
        match results.last() {
            Ok(_) => failures(results.drop_last()),
            Err(e) => failures(results.drop_last()).push(e),
        }
    }
}

/// What is told of failures after the first.
pub open spec fn also(errors: Seq<Error>) -> Seq<Seq<char>> {
    errors.map_values(|e: Error| "(also) "@ + e.message@)
}

/// What results of parallel work come to: the first failure in item order wins, and the
/// later ones are told.
pub open spec fn comes_to(
    results: Seq<Result<(), Error>>,
    verdict: Result<(), Error>,
    told: Seq<Seq<char>>,
) -> bool {
    let errors = failures(results);
    if errors.len() == 0 {
        verdict is Ok && told.len() == 0
    } else {
        verdict == Err::<(), Error>(errors[0]) && told == also(errors.drop_first())
    }
}

/// The first failure among the results of parallel work, and what to tell of the others.
pub fn first_failure(results: Vec<Result<(), Error>>) -> (r: (Result<(), Error>, Vec<String>))
    ensures
        comes_to(results@, r.0, text::texts(r.1@)),
{
    let ghost all = results@;
    let mut told: Vec<String> = Vec::new();
    let mut first: Option<usize> = None;
    let mut i: usize = 0;
    while i < results.len()
        invariant
            i <= results.len(),
            all == results@,
            match first {
                None => failures(all.take(i as int)).len() == 0 && told@.len() == 0,
                Some(k) => k < i && failures(all.take(i as int)).len() > 0 && all[k as int]
                    == Err::<(), Error>(failures(all.take(i as int))[0]) && text::texts(told@)
                    == also(failures(all.take(i as int)).drop_first()),
            },
        decreases results.len() - i,
    {
        let ghost before = failures(all.take(i as int));
        assert(all.take(i + 1).drop_last() =~= all.take(i as int));
        assert(all.take(i + 1).last() == all[i as int]);
        if let Err(e) = &results[i] {
            match first {
                None => {
                    first = Some(i);
                    assert(also(before.push(*e).drop_first()) =~= seq![]);
                    assert(text::texts(told@) =~= seq![]);
                },
                Some(_) => {
                    let ghost so_far = text::texts(told@);
                    let mut m = text::own("(also) ");
                    m.append(e.message.as_str());
                    told.push(m);
                    assert(before.push(*e).drop_first() =~= before.drop_first().push(*e));
                    assert(text::texts(told@) =~= so_far.push(m@));
                    assert(also(before.drop_first().push(*e)) =~= also(before.drop_first()).push(
                        m@,
                    ));
                },
            }
        }
        i = i + 1;
    }
    assert(all.take(i as int) =~= all);
    match first {
        None => (Ok(()), told),
        Some(k) => {
            let mut rest = results;
            (rest.swap_remove(k), told)
        },
    }
}

/// Parallel work succeeds exactly where every item did.
pub proof fn succeeds_iff_all_do(
    results: Seq<Result<(), Error>>,
    verdict: Result<(), Error>,
    told: Seq<Seq<char>>,
)
    requires
        comes_to(results, verdict, told),
    ensures
        verdict is Ok <==> forall|i: int| 0 <= i < results.len() ==> results[i] is Ok,
{
    lemma_no_failures(results);
}

proof fn lemma_no_failures(results: Seq<Result<(), Error>>)
    ensures
        failures(results).len() == 0 <==> forall|i: int|
            0 <= i < results.len() ==> results[i] is Ok,
    decreases results.len(),
{
    if results.len() > 0 {
        let rest = results.drop_last();
        lemma_no_failures(rest);
        assert(results[results.len() - 1] == results.last());
        if forall|i: int| 0 <= i < rest.len() ==> rest[i] is Ok {
            if results.last() is Ok {
                assert forall|i: int| 0 <= i < results.len() implies results[i] is Ok by {
                    if i < rest.len() {
                        assert(rest[i] == results[i]);
                    }
                }
            }
        } else {
            let i = choose|i: int| 0 <= i < rest.len() && !(rest[i] is Ok);
            assert(results[i] == rest[i]);
        }
    }
}

} // verus!
