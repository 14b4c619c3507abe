//! The decisions of the build driver: which items to prepare, how their
//! outcomes are collected, and what the cache keeps after assembly.
//!
//! The driver performs no work itself: whoever runs a build reads the source
//! files, calls the producer (possibly in parallel) and hands the results to
//! these functions.
use vstd::prelude::*;
use crate::builder::{EmojiBuilder, outcome_key, outcome_keys, Outcomes, PreparationResult};
use crate::keyed::{keyed_map, lemma_keyed_map};
use crate::changes::{fresh_spec, CheckError, FileHashes};
use crate::emoji::{same_sequence, Emoji};
use std::path::PathBuf;

verus! {

/// What the driver does with an item.
#[derive(Debug, Clone, Copy, PartialEq, Eq, Structural)]
pub enum Decision {
    /// The item is fresh and its artifact is still there: it is not prepared again.
    Reuse,
    /// The item must be prepared.
    Prepare,
}

/// The outcomes as a map from sequences; a later outcome wins over an earlier one.
pub open spec fn outcome_map<P, E>(o: Seq<(Emoji, Result<P, E>)>) -> Map<Seq<u32>, Result<P, E>> {
    keyed_map(o, outcome_key(), outcome_value())
}

/// The outcome of an item.
pub open spec fn outcome_value<P, E>() -> spec_fn((Emoji, Result<P, E>)) -> Result<P, E> {
    |x: (Emoji, Result<P, E>)| x.1
}

/// `m` with the derived items inserted in order, each with its prepared value.
pub open spec fn insert_derived<P, E>(m: Map<Seq<u32>, Result<P, E>>, d: Seq<(Emoji, P)>) -> Map<Seq<u32>, Result<P, E>>
    decreases d.len(),
{
    if d.len() == 0 {
        m
    } else {
        insert_derived(m, d.drop_last()).insert(d.last().0.sequence@, Ok(d.last().1))
    }
}

/// `m` with the result of preparing `e`: its prepared value and the derived
/// items after it, or its error.
pub open spec fn apply_result<P, E>(m: Map<Seq<u32>, Result<P, E>>, e: Emoji, r: PreparationResult<P, E>) -> Map<Seq<u32>, Result<P, E>> {
    match r {
        Ok((p, derived)) => match derived {
            Some(d) => insert_derived(m.insert(e.sequence@, Ok(p)), d@),
            None => m.insert(e.sequence@, Ok(p)),
        },
        Err(x) => m.insert(e.sequence@, Err(x)),
    }
}

/// The outcome map that the results of a batch give, folded in order.
pub open spec fn fold_results<P, E>(results: Seq<(Emoji, PreparationResult<P, E>)>) -> Map<Seq<u32>, Result<P, E>>
    decreases results.len(),
{
    if results.len() == 0 {
        Map::empty()
    } else {
        apply_result(fold_results(results.drop_last()), results.last().0, results.last().1)
    }
}

/// The sequences whose outcome is a success.
pub open spec fn is_ok_in<P, E>(m: Map<Seq<u32>, Result<P, E>>, s: Seq<u32>) -> bool {
    m.contains_key(s) && m[s] is Ok
}

/// The cache after a run: unchanged when assembly failed; otherwise each
/// digest of an item whose outcome is a success is stored, in order.
pub open spec fn committed<P, E>(
    cache: Map<Seq<u32>, Seq<u8>>,
    outcomes: Map<Seq<u32>, Result<P, E>>,
    digests: Seq<(Vec<u32>, Vec<u8>)>,
    built: bool,
) -> Map<Seq<u32>, Seq<u8>>
    decreases digests.len(),
{
    if !built || digests.len() == 0 {
        cache
    } else {
        let m = committed(cache, outcomes, digests.drop_last(), built);
        let (s, d) = digests.last();
        if is_ok_in(outcomes, s@) { m.insert(s@, d@) } else { m }
    }
}

proof fn lemma_outcome_map<P, E>(o: Seq<(Emoji, Result<P, E>)>)
    requires
        outcome_keys(o).no_duplicates(),
    ensures
        outcome_map(o).dom() == outcome_keys(o).to_set(),
        forall|i: int| 0 <= i < o.len() ==> #[trigger] outcome_map(o)[o[i].0.sequence@] == o[i].1,
{
    lemma_keyed_map(o, outcome_key(), outcome_value());
    assert forall|i: int| 0 <= i < o.len() implies #[trigger] outcome_map(o)[o[i].0.sequence@] == o[i].1 by {
        assert(outcome_map(o)[outcome_key()(o[i])] == outcome_value()(o[i]));
    }
}

/// Whether an item is reused or prepared: it is reused exactly when the
/// cache check found it fresh and its artifact from the last build is still there.
pub fn decide(check: &Result<bool, CheckError>, artifact_present: bool) -> (r: Decision)
    ensures
        (r == Decision::Reuse) == ((*check matches Ok(true)) && artifact_present),
{
    match check {
        Ok(true) => if artifact_present { Decision::Reuse } else { Decision::Prepare },
        _ => Decision::Prepare,
    }
}

/// The decision for each item of a batch, from its cache check and whether
/// its artifact is still there.
pub fn plan(checks: &Vec<Result<bool, CheckError>>, present: &Vec<bool>) -> (r: Vec<Decision>)
    requires
        checks@.len() == present@.len(),
    ensures
        r@.len() == checks@.len(),
        forall|i: int| 0 <= i < r@.len() ==>
            (#[trigger] r@[i] == Decision::Reuse) == ((checks@[i] matches Ok(true)) && present@[i]),
{
    let mut out: Vec<Decision> = Vec::new();
    let mut i: usize = 0;
    while i < checks.len()
        invariant
            i <= checks@.len() == present@.len(),
            out@.len() == i,
            forall|j: int| 0 <= j < i ==>
                (#[trigger] out@[j] == Decision::Reuse) == ((checks@[j] matches Ok(true)) && present@[j]),
        decreases checks.len() - i,
    {
        out.push(decide(&checks[i], present[i]));
        i = i + 1;
    }
    out
}

/// Records the outcome of an item, replacing an earlier outcome for the same sequence.
pub fn insert_outcome<P, E>(outcomes: &mut Outcomes<P, E>, emoji: Emoji, outcome: Result<P, E>)
    requires
        outcome_keys(old(outcomes)@).no_duplicates(),
    ensures
        outcome_keys(final(outcomes)@).no_duplicates(),
        outcome_map(final(outcomes)@) == outcome_map(old(outcomes)@).insert(emoji.sequence@, outcome),
{
    let ghost k = emoji.sequence@;
    let ghost e0 = outcomes@;
    let ghost og = outcome;
    proof { lemma_outcome_map(e0); }
    let mut i: usize = 0;
    while i < outcomes.len()
        invariant
            i <= outcomes@.len(),
            outcomes@ == e0,
            k == emoji.sequence@,
            og == outcome,
            e0 == old(outcomes)@,
            outcome_keys(e0).no_duplicates(),
            forall|j: int| 0 <= j < i ==> e0[j].0.sequence@ != k,
        decreases outcomes.len() - i,
    {
        if same_sequence(&outcomes[i].0.sequence, &emoji.sequence) {
            outcomes.set(i, (emoji, outcome));
            proof {
                let e1 = outcomes@;
                assert(outcome_keys(e1) =~= outcome_keys(e0));
                lemma_outcome_map(e0);
                lemma_outcome_map(e1);
                assert(outcome_keys(e0)[i as int] == k);
                assert(outcome_map(e1).dom() =~= outcome_map(e0).insert(k, og).dom());
                assert forall|key: Seq<u32>| #[trigger] outcome_map(e1).contains_key(key) implies
                    outcome_map(e1)[key] == outcome_map(e0).insert(k, og)[key] by {
                    let j = outcome_keys(e1).index_of(key);
                    assert(e1[j].0.sequence@ == key);
                    assert(outcome_map(e1)[e1[j].0.sequence@] == e1[j].1);
                    if j != i {
                        assert(e0[j] == e1[j]);
                        assert(outcome_keys(e1)[j] != outcome_keys(e1)[i as int]);
                        assert(outcome_map(e0)[e0[j].0.sequence@] == e0[j].1);
                    }
                }
                assert(outcome_map(e1) =~= outcome_map(e0).insert(k, og));
            }
            return;
        }
        i = i + 1;
    }
    outcomes.push((emoji, outcome));
    proof {
        let e1 = outcomes@;
        assert(e1.drop_last() =~= e0);
        assert(outcome_keys(e1) =~= outcome_keys(e0).push(k));
        assert(!outcome_keys(e0).contains(k)) by {
            if outcome_keys(e0).contains(k) {
                let j = outcome_keys(e0).index_of(k);
                assert(e0[j].0.sequence@ == k);
            }
        }
    }
}

/// Whether the outcome recorded for the sequence is a success.
pub fn outcome_is_ok<P, E>(outcomes: &Outcomes<P, E>, sequence: &Vec<u32>) -> (r: bool)
    requires
        outcome_keys(outcomes@).no_duplicates(),
    ensures
        r == is_ok_in(outcome_map(outcomes@), sequence@),
{
    proof { lemma_outcome_map(outcomes@); }
    let mut i: usize = 0;
    while i < outcomes.len()
        invariant
            i <= outcomes@.len(),
            outcome_keys(outcomes@).no_duplicates(),
            forall|j: int| 0 <= j < i ==> outcomes@[j].0.sequence@ != sequence@,
        decreases outcomes.len() - i,
    {
        if same_sequence(&outcomes[i].0.sequence, sequence) {
            proof {
                lemma_outcome_map(outcomes@);
                assert(outcome_keys(outcomes@)[i as int] == sequence@);
            }
            return outcomes[i].1.is_ok();
        }
        i = i + 1;
    }
    proof {
        lemma_outcome_map(outcomes@);
        if outcome_map(outcomes@).contains_key(sequence@) {
            let k = outcome_keys(outcomes@).index_of(sequence@);
            assert(outcomes@[k].0.sequence@ == sequence@);
        }
    }
    false
}

/// Collects the results of a batch into one outcome per sequence: each
/// item's prepared value (followed by its derived items) or its error. A
/// failed item is kept with its error; a later result for a sequence wins.
pub fn collect_outcomes<P, E>(results: Vec<(Emoji, PreparationResult<P, E>)>) -> (r: Outcomes<P, E>)
    ensures
        outcome_keys(r@).no_duplicates(),
        outcome_map(r@) == fold_results(results@),
{
    let ghost all = results@;
    let mut out: Outcomes<P, E> = Vec::new();
    let mut rest = results;
    let ghost mut done: int = 0;
    assert(outcome_keys(out@) =~= Seq::<Seq<u32>>::empty());
    assert(outcome_map(out@) =~= fold_results(all.take(0)));
    while rest.len() > 0
        invariant
            0 <= done <= all.len(),
            rest@ == all.skip(done),
            outcome_keys(out@).no_duplicates(),
            outcome_map(out@) == fold_results(all.take(done)),
        decreases rest.len(),
    {
        let (emoji, result) = rest.remove(0);
        let ghost m0 = outcome_map(out@);
        proof {
            assert((emoji, result) == all[done]);
            assert(all.take(done + 1).drop_last() =~= all.take(done));
            assert(rest@ =~= all.skip(done + 1));
        }
        match result {
            Ok((prepared, derived)) => {
                insert_outcome(&mut out, emoji, Ok(prepared));
                match derived {
                    Some(d) => {
                        let ghost dall = d@;
                        let ghost m1 = outcome_map(out@);
                        let mut drest = d;
                        let ghost mut k: int = 0;
                        assert(insert_derived(m1, dall.take(0)) == m1);
                        while drest.len() > 0
                            invariant
                                0 <= k <= dall.len(),
                                drest@ == dall.skip(k),
                                outcome_keys(out@).no_duplicates(),
                                outcome_map(out@) == insert_derived(m1, dall.take(k)),
                            decreases drest.len(),
                        {
                            let (de, dp) = drest.remove(0);
                            proof {
                                assert((de, dp) == dall[k]);
                                assert(dall.take(k + 1).drop_last() =~= dall.take(k));
                                assert(drest@ =~= dall.skip(k + 1));
                            }
                            insert_outcome(&mut out, de, Ok(dp));
                            proof { k = k + 1; }
                        }
                        assert(dall.take(k) =~= dall);
                    },
                    None => {},
                }
            },
            Err(x) => {
                insert_outcome(&mut out, emoji, Err(x));
            },
        }
        proof { done = done + 1; }
    }
    assert(all.take(done) =~= all);
    out
}

/// Updates the cache after assembly. When assembly failed the cache is left
/// as it was, so that every item is tried again; otherwise the digest of each
/// item whose outcome is a success is stored, and failed items stay stale.
pub fn commit<P, E>(cache: &mut FileHashes, outcomes: &Outcomes<P, E>, digests: &Vec<(Vec<u32>, Vec<u8>)>, built: bool)
    requires
        old(cache).wf(),
        outcome_keys(outcomes@).no_duplicates(),
    ensures
        final(cache).wf(),
        final(cache)@ == committed(old(cache)@, outcome_map(outcomes@), digests@, built),
{
    if !built {
        return;
    }
    let ghost c0 = cache@;
    let mut i: usize = 0;
    while i < digests.len()
        invariant
            i <= digests@.len(),
            built,
            cache.wf(),
            outcome_keys(outcomes@).no_duplicates(),
            cache@ == committed(c0, outcome_map(outcomes@), digests@.take(i as int), built),
        decreases digests.len() - i,
    {
        proof {
            assert(digests@.take(i + 1).drop_last() =~= digests@.take(i as int));
        }
        if outcome_is_ok(outcomes, &digests[i].0) {
            cache.insert_digest(&digests[i].0, digests[i].1.as_slice());
        }
        i = i + 1;
    }
    assert(digests@.take(i as int) =~= digests@);
}

proof fn lemma_commit_stores<P, E>(
    cache: Map<Seq<u32>, Seq<u8>>,
    outcomes: Map<Seq<u32>, Result<P, E>>,
    digests: Seq<(Vec<u32>, Vec<u8>)>,
    i: int,
)
    requires
        0 <= i < digests.len(),
        is_ok_in(outcomes, digests[i].0@),
        forall|j: int| i < j < digests.len() ==> #[trigger] digests[j].0@ != digests[i].0@,
    ensures
        committed(cache, outcomes, digests, true).contains_key(digests[i].0@),
        committed(cache, outcomes, digests, true)[digests[i].0@] == digests[i].1@,
    decreases digests.len(),
{
    if i < digests.len() - 1 {
        let p = digests.drop_last();
        assert(p[i] == digests[i]);
        assert forall|j: int| i < j < p.len() implies #[trigger] p[j].0@ != p[i].0@ by {
            assert(p[j] == digests[j]);
        }
        lemma_commit_stores(cache, outcomes, p, i);
        assert(digests.last().0@ != digests[i].0@);
    }
}

/// An item that succeeded in a run whose assembly succeeded, and whose source
/// file is unchanged at the next run, is fresh at that run: it is not
/// prepared again while its artifact is there.
pub proof fn lemma_fresh_after_commit<P, E>(
    cache: Map<Seq<u32>, Seq<u8>>,
    outcomes: Map<Seq<u32>, Result<P, E>>,
    digests: Seq<(Vec<u32>, Vec<u8>)>,
    i: int,
    e: Emoji,
    contents: Seq<u8>,
)
    requires
        e.svg_path is Some,
        0 <= i < digests.len(),
        digests[i].0@ == e.sequence@,
        digests[i].1@ == crate::digest::digest_of(contents),
        forall|j: int| i < j < digests.len() ==> #[trigger] digests[j].0@ != e.sequence@,
        is_ok_in(outcomes, e.sequence@),
    ensures
        fresh_spec(committed(cache, outcomes, digests, true), e, Some(contents)),
{
    lemma_commit_stores(cache, outcomes, digests, i);
}

/// When assembly fails the cache is left as it was, so every item that was
/// prepared in that run (it was not fresh, or its artifact was missing) is
/// prepared again in the next run on the same files.
pub proof fn lemma_failed_build_retries<P, E>(
    cache: Map<Seq<u32>, Seq<u8>>,
    outcomes: Map<Seq<u32>, Result<P, E>>,
    digests: Seq<(Vec<u32>, Vec<u8>)>,
    e: Emoji,
    contents: Option<Seq<u8>>,
    artifact_present: bool,
)
    requires
        !(fresh_spec(cache, e, contents) && artifact_present),
    ensures
        committed(cache, outcomes, digests, false) == cache,
        !(fresh_spec(committed(cache, outcomes, digests, false), e, contents) && artifact_present),
{
}

/// The sequences of a batch's items.
pub open spec fn result_keys<P, E>(results: Seq<(Emoji, PreparationResult<P, E>)>) -> Seq<Seq<u32>> {
    results.map_values(|x: (Emoji, PreparationResult<P, E>)| x.0.sequence@)
}

/// Every result is an error or a prepared value without derived items.
pub open spec fn no_derived<P, E>(results: Seq<(Emoji, PreparationResult<P, E>)>) -> bool {
    forall|i: int| 0 <= i < results.len() ==> match #[trigger] results[i].1 {
        Ok((_, d)) => d is None,
        Err(_) => true,
    }
}

/// The derived items of a result.
pub open spec fn derived_of<P, E>(r: PreparationResult<P, E>) -> Seq<(Emoji, P)> {
    match r {
        Ok((_, Some(d))) => d@,
        _ => seq![],
    }
}

/// No derived item of the batch has the sequence of one of the batch's items.
pub open spec fn derived_apart<P, E>(results: Seq<(Emoji, PreparationResult<P, E>)>) -> bool {
    forall|i: int, j: int, t: int| 0 <= i < results.len() && 0 <= j < results.len()
        && 0 <= t < derived_of(results[i].1).len()
        ==> #[trigger] derived_of(results[i].1)[t].0.sequence@ != #[trigger] results[j].0.sequence@
}

proof fn lemma_insert_derived_keeps<P, E>(m: Map<Seq<u32>, Result<P, E>>, d: Seq<(Emoji, P)>, k: Seq<u32>)
    requires
        forall|t: int| 0 <= t < d.len() ==> #[trigger] d[t].0.sequence@ != k,
    ensures
        insert_derived(m, d).contains_key(k) == m.contains_key(k),
        insert_derived(m, d)[k] == m[k],
    decreases d.len(),
{
    if d.len() > 0 {
        let p = d.drop_last();
        assert forall|t: int| 0 <= t < p.len() implies #[trigger] p[t].0.sequence@ != k by {
            assert(p[t] == d[t]);
        }
        lemma_insert_derived_keeps(m, p, k);
        assert(d[d.len() - 1].0.sequence@ != k);
    }
}

/// The outcome that a result records for its own item.
pub open spec fn own_outcome<P, E>(r: PreparationResult<P, E>) -> Result<P, E> {
    match r {
        Ok((p, _)) => Ok(p),
        Err(x) => Err(x),
    }
}

/// In a batch of distinct items, one item's failure does not take any other
/// item's outcome away: the outcome map holds every item, each with its own
/// outcome (a success exactly when its own preparation succeeded; a reused
/// item with the value it was given). Derived items may join the map,
/// as long as none of them has the sequence of an item of the batch; without
/// derived items the map holds exactly the batch's items.
pub proof fn lemma_partial_failure_isolation<P, E>(results: Seq<(Emoji, PreparationResult<P, E>)>)
    requires
        result_keys(results).no_duplicates(),
        derived_apart(results),
    ensures
        forall|i: int| 0 <= i < results.len() ==> fold_results(results).contains_key(#[trigger] results[i].0.sequence@),
        forall|i: int| 0 <= i < results.len() ==>
            #[trigger] fold_results(results)[results[i].0.sequence@] == own_outcome(results[i].1),
        no_derived(results) ==> fold_results(results).dom() == result_keys(results).to_set(),
        no_derived(results) ==> fold_results(results).len() == results.len(),
    decreases results.len(),
{
    if results.len() > 0 {
        let n = results.len() - 1;
        let p = results.drop_last();
        let k = results[n].0.sequence@;
        let m = fold_results(p);
        assert(result_keys(p) =~= result_keys(results).drop_last());
        assert forall|i: int, j: int, t: int| 0 <= i < p.len() && 0 <= j < p.len()
            && 0 <= t < derived_of(p[i].1).len()
            implies #[trigger] derived_of(p[i].1)[t].0.sequence@ != #[trigger] p[j].0.sequence@ by {
            assert(p[i] == results[i] && p[j] == results[j]);
        }
        lemma_partial_failure_isolation(p);
        assert(result_keys(results) =~= result_keys(p).push(k));
        assert(!result_keys(p).contains(k)) by {
            if result_keys(p).contains(k) {
                let j = result_keys(p).index_of(k);
                assert(result_keys(results)[j] == result_keys(results)[n]);
            }
        }
        let d = derived_of(results[n].1);
        let m1 = match results[n].1 {
            Ok((pr, _)) => m.insert(k, Ok(pr)),
            Err(x) => m.insert(k, Err(x)),
        };
        assert(fold_results(results) == (match results[n].1 {
            Ok((pr, derived)) => match derived {
                Some(dd) => insert_derived(m.insert(k, Ok(pr)), dd@),
                None => m.insert(k, Ok(pr)),
            },
            Err(x) => m.insert(k, Err(x)),
        }));
        assert forall|i: int| 0 <= i < results.len() implies
            fold_results(results).contains_key(#[trigger] results[i].0.sequence@)
            && fold_results(results)[results[i].0.sequence@] == own_outcome(results[i].1) by {
            let ki = results[i].0.sequence@;
            assert forall|t: int| 0 <= t < d.len() implies #[trigger] d[t].0.sequence@ != ki by {
                assert(derived_of(results[n].1)[t].0.sequence@ != results[i].0.sequence@);
            }
            match results[n].1 {
                Ok((pr, derived)) => match derived {
                    Some(dd) => { lemma_insert_derived_keeps(m.insert(k, Ok(pr)), dd@, ki); },
                    None => {},
                },
                Err(x) => {},
            }
            if i < n {
                assert(p[i] == results[i]);
                assert(result_keys(results)[i] != result_keys(results)[n]);
                assert(m.contains_key(p[i].0.sequence@));
                assert(m[p[i].0.sequence@] == own_outcome(p[i].1));
            }
        }
        if no_derived(results) {
            assert forall|i: int| 0 <= i < p.len() implies match #[trigger] p[i].1 {
                Ok((_, dd)) => dd is None,
                Err(_) => true,
            } by {
                assert(p[i] == results[i]);
            }
            assert(match results[n].1 {
                Ok((_, dd)) => dd is None,
                Err(_) => true,
            });
            assert(fold_results(results) == m1);
            assert forall|x: Seq<u32>| result_keys(results).contains(x) <==> (result_keys(p).contains(x) || x == k) by {
                if result_keys(results).contains(x) {
                    let j = result_keys(results).index_of(x);
                    if j < p.len() {
                        assert(result_keys(p)[j] == x);
                    }
                }
                if result_keys(p).contains(x) {
                    let j = result_keys(p).index_of(x);
                    assert(result_keys(results)[j] == x);
                }
                if x == k {
                    assert(result_keys(results)[n] == x);
                }
            }
            assert(fold_results(results).dom() =~= result_keys(results).to_set());
            result_keys(results).unique_seq_to_set();
        }
    }
}

/// An item that was reused (its result is the reused value, as
/// [`prepare_item`] gives it) appears in the outcome map handed to assembly
/// with exactly that value, whatever happened to the other items.
pub proof fn lemma_reused_item_outcome<P, E>(results: Seq<(Emoji, PreparationResult<P, E>)>, i: int, value: P)
    requires
        result_keys(results).no_duplicates(),
        derived_apart(results),
        0 <= i < results.len(),
        results[i].1 == Ok::<(P, Option<Vec<(Emoji, P)>>), E>((value, None)),
    ensures
        fold_results(results).contains_key(results[i].0.sequence@),
        fold_results(results)[results[i].0.sequence@] == Ok::<P, E>(value),
{
    lemma_partial_failure_isolation(results);
}

/// The outcome of one item of a batch: a reused item with a prepared value
/// from the producer's `reuse` takes that value and is not prepared again;
/// any other item is prepared.
pub fn prepare_item<B: EmojiBuilder>(builder: &B, emoji: Emoji, decision: Decision, reused: Option<B::PreparedEmoji>)
    -> (r: (Emoji, PreparationResult<B::PreparedEmoji, B::Err>))
    ensures
        r.0 == emoji,
        decision == Decision::Reuse && reused is Some
            ==> r.1 == Ok::<(B::PreparedEmoji, Option<Vec<(Emoji, B::PreparedEmoji)>>), B::Err>((reused->0, None)),
{
    match reused {
        Some(value) => {
            if decision == Decision::Reuse {
                return (emoji, Ok((value, None)));
            }
        },
        None => {},
    }
    let result = builder.prepare(&emoji);
    (emoji, result)
}

/// Success or failure of each outcome, without the values.
fn outcome_status<P, E>(outcomes: &Outcomes<P, E>) -> (r: Outcomes<(), ()>)
    requires
        outcome_keys(outcomes@).no_duplicates(),
    ensures
        outcome_keys(r@).no_duplicates(),
        forall|s: Seq<u32>| #[trigger] is_ok_in(outcome_map(r@), s) == is_ok_in(outcome_map(outcomes@), s),
{
    let mut out: Outcomes<(), ()> = Vec::new();
    let mut i: usize = 0;
    while i < outcomes.len()
        invariant
            i <= outcomes@.len(),
            out@.len() == i,
            forall|j: int| 0 <= j < i ==> #[trigger] out@[j].0.sequence@ == outcomes@[j].0.sequence@
                && (out@[j].1 is Ok) == (outcomes@[j].1 is Ok),
        decreases outcomes.len() - i,
    {
        let sequence = outcomes[i].0.sequence.clone();
        let status: Result<(), ()> = if outcomes[i].1.is_ok() { Ok(()) } else { Err(()) };
        out.push((Emoji::from(sequence), status));
        i = i + 1;
    }
    proof {
        assert(outcome_keys(out@) =~= outcome_keys(outcomes@)) by {
            assert forall|j: int| 0 <= j < out@.len() implies outcome_keys(out@)[j] == outcome_keys(outcomes@)[j] by {
                assert(out@[j].0.sequence@ == outcomes@[j].0.sequence@);
            }
        }
        lemma_outcome_map(out@);
        lemma_outcome_map(outcomes@);
        assert forall|s: Seq<u32>| #[trigger] is_ok_in(outcome_map(out@), s) == is_ok_in(outcome_map(outcomes@), s) by {
            if outcome_map(outcomes@).contains_key(s) {
                let j = outcome_keys(outcomes@).index_of(s);
                assert(outcome_map(out@)[out@[j].0.sequence@] == out@[j].1);
                assert(outcome_map(outcomes@)[outcomes@[j].0.sequence@] == outcomes@[j].1);
            }
            if outcome_map(out@).contains_key(s) {
                let j = outcome_keys(out@).index_of(s);
                assert(outcome_keys(outcomes@)[j] == s);
            }
        }
    }
    out
}

proof fn lemma_committed_same_status<P, E, Q, F>(
    cache: Map<Seq<u32>, Seq<u8>>,
    a: Map<Seq<u32>, Result<P, E>>,
    b: Map<Seq<u32>, Result<Q, F>>,
    digests: Seq<(Vec<u32>, Vec<u8>)>,
    built: bool,
)
    requires
        forall|s: Seq<u32>| #[trigger] is_ok_in(a, s) == is_ok_in(b, s),
    ensures
        committed(cache, a, digests, built) == committed(cache, b, digests, built),
    decreases digests.len(),
{
    if built && digests.len() > 0 {
        lemma_committed_same_status(cache, a, b, digests.drop_last(), built);
        assert(is_ok_in(a, digests.last().0@) == is_ok_in(b, digests.last().0@));
    }
}

/// Has the producer assemble the output from the outcomes, then updates the
/// cache: when assembly fails the cache is left exactly as it was, so every
/// item of this run is tried again; when it succeeds the digest of each item
/// whose outcome is a success is stored.
pub fn assemble_and_commit<B: EmojiBuilder>(
    builder: &mut B,
    cache: &mut FileHashes,
    outcomes: Outcomes<B::PreparedEmoji, B::Err>,
    digests: &Vec<(Vec<u32>, Vec<u8>)>,
    output_file: PathBuf,
) -> (r: Result<(), B::Err>)
    requires
        outcomes@.len() > 0,
        outcome_keys(outcomes@).no_duplicates(),
        old(cache).wf(),
    ensures
        final(cache).wf(),
        r is Err ==> final(cache)@ == old(cache)@,
        final(cache)@ == committed(old(cache)@, outcome_map(outcomes@), digests@, r is Ok),
{
    let status = outcome_status(&outcomes);
    let ghost om = outcome_map(outcomes@);
    let result = builder.build(outcomes, output_file);
    commit(cache, &status, digests, result.is_ok());
    proof {
        lemma_committed_same_status(old(cache)@, outcome_map(status@), om, digests@, result is Ok);
    }
    result
}
} // verus!
