//! The outcome of every record in a run.

use super::error::{completion_error_text, CompletionError, RunError};
use vstd::prelude::*;
use vstd::string::*;

verus! {

/// What happened to one record.
#[derive(Debug)]
pub enum Outcome {
    /// The model's output was applied to the record.
    Applied,
    /// An output from the cache was applied; the model wasn't called.
    Cached,
    /// The record got no output and was left unchanged.
    Failed(CompletionError),
}

/// A snapshot of a run's progress, taken after each record.
#[derive(Debug, Clone, Copy, PartialEq, Eq, Structural)]
pub struct Progress {
    /// Records in the run.
    pub total: usize,
    /// Records with an outcome so far.
    pub done: usize,
    /// Records completed by the model.
    pub succeeded: usize,
    /// Records completed from the cache.
    pub cached: usize,
    /// Records that failed.
    pub failed: usize,
    /// Tokens used so far, as reported by the backend.
    pub tokens: u64,
}

impl Default for Progress {
    fn default() -> (r: Progress)
        ensures
            r == (Progress { total: 0, done: 0, succeeded: 0, cached: 0, failed: 0, tokens: 0 }),
    {
        Progress { total: 0, done: 0, succeeded: 0, cached: 0, failed: 0, tokens: 0 }
    }
}

/// How many records ended in each [`Outcome`].
#[derive(Debug, Clone, Copy, PartialEq, Eq, Structural)]
pub struct Counts {
    /// Completed by the model.
    pub applied: usize,
    /// Completed from the cache.
    pub cached: usize,
    /// Failed.
    pub failed: usize,
}

impl Default for Counts {
    fn default() -> (r: Counts)
        ensures
            r == (Counts { applied: 0, cached: 0, failed: 0 }),
    {
        Counts { applied: 0, cached: 0, failed: 0 }
    }
}

/// The outcome of every record in a run, in record order.
#[derive(Debug)]
pub struct Report {
    /// One outcome per record.
    pub outcomes: Vec<Outcome>,
    /// Tokens used.
    pub tokens: u64,
}

/// How many of `outcomes` are applied.
pub open spec fn applied_count(outcomes: Seq<Outcome>) -> nat
    decreases outcomes.len(),
{
    if outcomes.len() == 0 {
        0
    } else {
        applied_count(outcomes.drop_last()) + if outcomes.last() is Applied {
            1nat
        } else {
            0nat
        }
    }
}

/// How many of `outcomes` come from the cache.
pub open spec fn cached_count(outcomes: Seq<Outcome>) -> nat
    decreases outcomes.len(),
{
    if outcomes.len() == 0 {
        0
    } else {
        cached_count(outcomes.drop_last()) + if outcomes.last() is Cached {
            1nat
        } else {
            0nat
        }
    }
}

/// The failures among `outcomes` with their positions, in order.
pub open spec fn failures_of(outcomes: Seq<Outcome>) -> Seq<(usize, CompletionError)>
    decreases outcomes.len(),
{
    if outcomes.len() == 0 {
        Seq::empty()
    } else {
        let rest = failures_of(outcomes.drop_last());
        match outcomes.last() {
            Outcome::Failed(err) => rest.push(((outcomes.len() - 1) as usize, err)),
            _ => rest,
        }
    }
}

/// The counts are those of three groups that make up the whole report.
pub proof fn lemma_counts_cover_the_report(outcomes: Seq<Outcome>)
    ensures
        applied_count(outcomes) + cached_count(outcomes) + failures_of(outcomes).len()
            == outcomes.len(),
    decreases outcomes.len(),
{
    if outcomes.len() > 0 {
        lemma_counts_cover_the_report(outcomes.drop_last());
    }
}

/// The failures are listed once each, in record order, and each with the error
/// of its record.
pub proof fn lemma_failures_in_record_order(outcomes: Seq<Outcome>)
    requires
        outcomes.len() <= usize::MAX,
    ensures
        forall|k: int|
            0 <= k < failures_of(outcomes).len() ==> ({
                let (index, err) = #[trigger] failures_of(outcomes)[k];
                index < outcomes.len() && outcomes[index as int] == Outcome::Failed(err)
            }),
        forall|j: int, k: int|
            0 <= j < k < failures_of(outcomes).len() ==> (#[trigger] failures_of(outcomes)[j]).0 < (
            #[trigger] failures_of(outcomes)[k]).0,
        forall|i: int|
            0 <= i < outcomes.len() && (#[trigger] outcomes[i]) is Failed ==> exists|k: int|
                0 <= k < failures_of(outcomes).len() && (#[trigger] failures_of(outcomes)[k]).0 == i,
    decreases outcomes.len(),
{
    if outcomes.len() > 0 {
        let rest = outcomes.drop_last();
        lemma_failures_in_record_order(rest);
        let listed = failures_of(outcomes);
        let before = failures_of(rest);
        assert forall|i: int|
            0 <= i < outcomes.len() && (#[trigger] outcomes[i]) is Failed implies exists|k: int|
            0 <= k < listed.len() && (#[trigger] listed[k]).0 == i by {
            if i < rest.len() {
                assert(rest[i] is Failed);
                let k = choose|k: int| 0 <= k < before.len() && (#[trigger] before[k]).0 == i;
                assert(listed[k] == before[k]);
            } else {
                assert(listed[listed.len() - 1].0 == i);
            }
        }
        assert forall|k: int| 0 <= k < listed.len() implies ({
            let (index, err) = #[trigger] listed[k];
            index < outcomes.len() && outcomes[index as int] == Outcome::Failed(err)
        }) by {
            if k < before.len() {
                assert(listed[k] == before[k]);
                assert(rest[before[k].0 as int] == outcomes[before[k].0 as int]);
            }
        }
        assert forall|j: int, k: int| 0 <= j < k < listed.len() implies (#[trigger] listed[j]).0 < (
        #[trigger] listed[k]).0 by {
            assert(listed[j] == before[j]);
            assert(before[j].0 < rest.len());
            if k < before.len() {
                assert(listed[k] == before[k]);
            }
        }
    }
}

/// A report is complete exactly when it lists no failure.
pub proof fn lemma_complete_without_failures(outcomes: Seq<Outcome>)
    requires
        outcomes.len() <= usize::MAX,
    ensures
        failures_of(outcomes).len() == 0 <==> forall|i: int|
            0 <= i < outcomes.len() ==> !((#[trigger] outcomes[i]) is Failed),
{
    lemma_failures_in_record_order(outcomes);
    if failures_of(outcomes).len() > 0 {
        let (index, err) = failures_of(outcomes)[0];
        assert(outcomes[index as int] is Failed);
    }
}

impl Report {
    /// One outcome per record, in record order.
    pub fn outcomes(&self) -> (r: &[Outcome])
        ensures
            r@ == self.outcomes@,
    {
        self.outcomes.as_slice()
    }

    /// The failed records, as `(index, error)`.
    pub fn failures(&self) -> (r: Vec<(usize, &CompletionError)>)
        ensures
            r@.len() == failures_of(self.outcomes@).len(),
            forall|k: int|
                0 <= k < r@.len() ==> (#[trigger] r@[k]).0 == failures_of(self.outcomes@)[k].0
                    && *r@[k].1 == failures_of(self.outcomes@)[k].1,
    {
        let mut list: Vec<(usize, &CompletionError)> = Vec::new();
        let mut i: usize = 0;
        while i < self.outcomes.len()
            invariant
                i <= self.outcomes@.len(),
                list@.len() == failures_of(self.outcomes@.take(i as int)).len(),
                forall|k: int|
                    0 <= k < list@.len() ==> (#[trigger] list@[k]).0 == failures_of(
                        self.outcomes@.take(i as int),
                    )[k].0 && *list@[k].1 == failures_of(self.outcomes@.take(i as int))[k].1,
            decreases self.outcomes@.len() - i,
        {
            proof {
                assert(self.outcomes@.take(i + 1).drop_last() =~= self.outcomes@.take(i as int));
                assert(self.outcomes@.take(i + 1).last() == self.outcomes@[i as int]);
            }
            match &self.outcomes[i] {
                Outcome::Failed(err) => list.push((i, err)),
                _ => {},
            }
            i += 1;
        }
        proof {
            assert(self.outcomes@.take(self.outcomes@.len() as int) =~= self.outcomes@);
        }
        list
    }

    /// Whether every record got an output.
    pub fn is_complete(&self) -> (r: bool)
        ensures
            r == (forall|i: int|
                0 <= i < self.outcomes@.len() ==> !((#[trigger] self.outcomes@[i]) is Failed)),
    {
        let mut i: usize = 0;
        while i < self.outcomes.len()
            invariant
                i <= self.outcomes@.len(),
                forall|j: int| 0 <= j < i ==> !((#[trigger] self.outcomes@[j]) is Failed),
            decreases self.outcomes@.len() - i,
        {
            match &self.outcomes[i] {
                Outcome::Failed(_) => {
                    proof {
                        assert(self.outcomes@[i as int] is Failed);
                    }
                    return false;
                },
                _ => {},
            }
            i += 1;
        }
        true
    }

    /// `Ok` when every record got an output, or else
    /// [`RunError::Incomplete`] describing the first failure.
    pub fn ensure_all(&self) -> (r: Result<(), RunError>)
        ensures
            r is Ok <==> failures_of(self.outcomes@).len() == 0,
            r matches Err(e) ==> e matches RunError::Incomplete {
                failed,
                total,
                first_index,
                first_error,
            } && failed == failures_of(self.outcomes@).len() && total == self.outcomes@.len()
                && first_index == failures_of(self.outcomes@)[0].0 && first_error@
                == completion_error_text(failures_of(self.outcomes@)[0].1),
    {
        let failures = self.failures();
        if failures.len() == 0 {
            return Ok(());
        }
        Err(
            RunError::Incomplete {
                failed: failures.len(),
                total: self.outcomes.len(),
                first_index: failures[0].0,
                first_error: failures[0].1.display(),
            },
        )
    }

    /// Tokens used, as reported by the backend.
    pub fn tokens(&self) -> (r: u64)
        ensures
            r == self.tokens,
    {
        self.tokens
    }

    /// How many records ended in each outcome.
    pub fn counts(&self) -> (r: Counts)
        ensures
            r.applied == applied_count(self.outcomes@),
            r.cached == cached_count(self.outcomes@),
            r.failed == failures_of(self.outcomes@).len(),
    {
        let mut counts = Counts::default();
        let mut i: usize = 0;
        while i < self.outcomes.len()
            invariant
                i <= self.outcomes@.len(),
                counts.applied == applied_count(self.outcomes@.take(i as int)),
                counts.cached == cached_count(self.outcomes@.take(i as int)),
                counts.failed == failures_of(self.outcomes@.take(i as int)).len(),
            decreases self.outcomes@.len() - i,
        {
            proof {
                lemma_counts_cover_the_report(self.outcomes@.take(i as int));
                assert(self.outcomes@.take(i + 1).drop_last() =~= self.outcomes@.take(i as int));
                assert(self.outcomes@.take(i + 1).last() == self.outcomes@[i as int]);
            }
            match &self.outcomes[i] {
                Outcome::Applied => counts.applied += 1,
                Outcome::Cached => counts.cached += 1,
                Outcome::Failed(_) => counts.failed += 1,
            }
            i += 1;
        }
        proof {
            assert(self.outcomes@.take(self.outcomes@.len() as int) =~= self.outcomes@);
        }
        counts
    }

    /// The outcomes, taking ownership of the errors.
    pub fn into_outcomes(self) -> (r: Vec<Outcome>)
        ensures
            r == self.outcomes,
    {
        self.outcomes
    }
}

} // verus!
