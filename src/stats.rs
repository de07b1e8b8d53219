//! Per-category counters of finished file tasks.

use vstd::prelude::*;

verus! {

/// Why a single file task ended without replacing the file.
#[derive(Clone, Copy, Debug, PartialEq, Eq, Structural)]
pub enum TaskError {
    /// Reading the original content or its metadata failed.
    Io,
    /// The transform of the content failed; the temporary output was discarded.
    Transform,
    /// Replacing the original or restoring its permissions failed.
    Commit,
}

/// The terminal outcome of one file task: the bytes saved
/// (original size minus optimized size, possibly negative), or the error.
pub type TaskOutcome = Result<i64, TaskError>;

/// Number of successful outcomes.
pub open spec fn successes(outcomes: Seq<TaskOutcome>) -> nat
    decreases outcomes.len(),
{
    if outcomes.len() == 0 {
        0
    } else {
        successes(outcomes.drop_last()) + if outcomes.last() is Ok { 1nat } else { 0nat }
    }
}

/// Sum of the byte deltas of the successful outcomes.
pub open spec fn saved(outcomes: Seq<TaskOutcome>) -> int
    decreases outcomes.len(),
{
    if outcomes.len() == 0 {
        0
    } else {
        saved(outcomes.drop_last()) + match outcomes.last() {
            Ok(d) => d as int,
            Err(_) => 0,
        }
    }
}

/// Counters of one category: successes, failures and the cumulative byte delta.
#[derive(Clone, Copy, Debug, PartialEq, Eq, Structural)]
pub struct SizeStats {
    pub success: u64,
    pub failed: u64,
    pub diff: i64,
}

impl SizeStats {
    /// Whether recording `outcome` keeps every counter within its type.
    pub open spec fn can_record(self, outcome: TaskOutcome) -> bool {
        match outcome {
            Ok(d) => self.success < u64::MAX && i64::MIN <= self.diff + d <= i64::MAX,
            Err(_) => self.failed < u64::MAX,
        }
    }

    /// The counters after recording `outcome`.
    pub open spec fn after(self, outcome: TaskOutcome) -> SizeStats {
        match outcome {
            Ok(d) => SizeStats {
                success: (self.success + 1) as u64,
                failed: self.failed,
                diff: (self.diff + d) as i64,
            },
            Err(_) => SizeStats { success: self.success, failed: (self.failed + 1) as u64, diff: self.diff },
        }
    }

    /// Zeroed counters.
    pub fn const_new() -> (r: SizeStats)
        ensures
            r == (SizeStats { success: 0, failed: 0, diff: 0 }),
    {
        SizeStats { success: 0, failed: 0, diff: 0 }
    }

    /// Executable form of `can_record`.
    pub fn fits(&self, outcome: &TaskOutcome) -> (r: bool)
        ensures
            r == self.can_record(*outcome),
    {
        match outcome {
            Ok(d) => self.success < u64::MAX && self.diff.checked_add(*d).is_some(),
            Err(_) => self.failed < u64::MAX,
        }
    }

    /// Counts one finished task.
    pub fn record(&mut self, outcome: &TaskOutcome)
        requires
            old(self).can_record(*outcome),
        ensures
            *final(self) == old(self).after(*outcome),
    {
        match outcome {
            Ok(d) => {
                self.success = self.success + 1;
                self.diff = self.diff + *d;
            },
            Err(_) => {
                self.failed = self.failed + 1;
            },
        }
    }
}

/// The counters reached by recording `outcomes` in order into zeroed counters.
pub open spec fn replay(outcomes: Seq<TaskOutcome>) -> SizeStats
    decreases outcomes.len(),
{
    if outcomes.len() == 0 {
        SizeStats { success: 0, failed: 0, diff: 0 }
    } else {
        replay(outcomes.drop_last()).after(outcomes.last())
    }
}

/// Whether every counter stays within its type while `outcomes` are recorded in order.
pub open spec fn fits_all(outcomes: Seq<TaskOutcome>) -> bool
    decreases outcomes.len(),
{
    if outcomes.len() == 0 {
        true
    } else {
        fits_all(outcomes.drop_last()) && replay(outcomes.drop_last()).can_record(outcomes.last())
    }
}

/// Records `outcomes` in order into zeroed counters; `None` when a counter
/// would leave its type on the way.
pub fn aggregate(outcomes: &Vec<TaskOutcome>) -> (r: Option<SizeStats>)
    ensures
        r == if fits_all(outcomes@) { Some(replay(outcomes@)) } else { None::<SizeStats> },
{
    let mut stats = SizeStats::const_new();
    let mut i: usize = 0;
    while i < outcomes.len()
        invariant
            i <= outcomes.len(),
            fits_all(outcomes@.take(i as int)),
            stats == replay(outcomes@.take(i as int)),
        decreases outcomes.len() - i,
    {
        proof {
            assert(outcomes@.take(i as int + 1).drop_last() == outcomes@.take(i as int));
        }
        if !stats.fits(&outcomes[i]) {
            proof {
                if fits_all(outcomes@) {
                    lemma_fits_all_prefix(outcomes@, i as int + 1);
                }
            }
            return None;
        }
        stats.record(&outcomes[i]);
        i = i + 1;
    }
    assert(outcomes@.take(i as int) == outcomes@);
    Some(stats)
}

/// Fitting is closed under taking prefixes.
proof fn lemma_fits_all_prefix(outcomes: Seq<TaskOutcome>, n: int)
    requires
        0 <= n <= outcomes.len(),
        fits_all(outcomes),
    ensures
        fits_all(outcomes.take(n)),
    decreases outcomes.len(),
{
    if n < outcomes.len() {
        assert(outcomes.drop_last().take(n) == outcomes.take(n));
        lemma_fits_all_prefix(outcomes.drop_last(), n);
    } else {
        assert(outcomes.take(n) == outcomes);
    }
}

/// Recording N outcomes, k of them successes with deltas d1..dk, into zeroed
/// counters yields k successes, N - k failures and the delta d1 + ... + dk.
pub proof fn lemma_aggregation(outcomes: Seq<TaskOutcome>)
    requires
        fits_all(outcomes),
    ensures
        replay(outcomes).success == successes(outcomes),
        replay(outcomes).failed == outcomes.len() - successes(outcomes),
        replay(outcomes).diff == saved(outcomes),
    decreases outcomes.len(),
{
    if outcomes.len() > 0 {
        lemma_aggregation(outcomes.drop_last());
    }
}

/// What one outcome adds to the cumulative delta.
pub open spec fn delta_of(outcome: TaskOutcome) -> int {
    match outcome {
        Ok(d) => d as int,
        Err(_) => 0,
    }
}

/// Turning the outcome of task `j` into a failure leaves every other task's
/// outcome as it was, and moves the category's counts only by what task `j`
/// itself contributed: one success and its delta become one failure.
pub proof fn lemma_failure_isolation(outcomes: Seq<TaskOutcome>, j: int, e: TaskError)
    requires
        0 <= j < outcomes.len(),
    ensures
        forall|i: int| 0 <= i < outcomes.len() && i != j ==> outcomes.update(j, Err(e))[i] == outcomes[i],
        successes(outcomes.update(j, Err(e))) == successes(outcomes) - if outcomes[j] is Ok { 1int } else { 0int },
        saved(outcomes.update(j, Err(e))) == saved(outcomes) - delta_of(outcomes[j]),
    decreases outcomes.len(),
{
    let u = outcomes.update(j, Err(e));
    if j == outcomes.len() - 1 {
        assert(u.drop_last() == outcomes.drop_last());
    } else {
        assert(u.drop_last() == outcomes.drop_last().update(j, Err(e)));
        lemma_failure_isolation(outcomes.drop_last(), j, e);
    }
}

/// Removing one outcome takes away exactly its own contribution.
proof fn lemma_remove_contribution(outcomes: Seq<TaskOutcome>, i: int)
    requires
        0 <= i < outcomes.len(),
    ensures
        successes(outcomes) == successes(outcomes.remove(i)) + if outcomes[i] is Ok { 1int } else { 0int },
        saved(outcomes) == saved(outcomes.remove(i)) + delta_of(outcomes[i]),
    decreases outcomes.len(),
{
    if i == outcomes.len() - 1 {
        assert(outcomes.remove(i) == outcomes.drop_last());
    } else {
        assert(outcomes.remove(i).drop_last() == outcomes.drop_last().remove(i));
        lemma_remove_contribution(outcomes.drop_last(), i);
    }
}

/// Workers finish in no particular order: the same outcomes, recorded in any
/// other order, give the same success count, the same failure count and the
/// same cumulative delta.
pub proof fn lemma_order_independent(a: Seq<TaskOutcome>, b: Seq<TaskOutcome>)
    requires
        a.to_multiset() == b.to_multiset(),
    ensures
        a.len() == b.len(),
        successes(a) == successes(b),
        saved(a) == saved(b),
    decreases a.len(),
{
    broadcast use vstd::seq_lib::group_to_multiset_ensures;

    if a.len() == 0 {
        assert(b.to_multiset().len() == 0);
        assert(b.len() == 0);
    } else {
        let x = a.last();
        let rest = a.drop_last();
        assert(a == rest.push(x));
        assert(a.to_multiset() == rest.to_multiset().insert(x));
        assert(b.to_multiset().count(x) > 0);
        assert(b.contains(x));
        let i = choose|i: int| 0 <= i < b.len() && b[i] == x;
        assert(b.remove(i).to_multiset() == b.to_multiset().remove(x));
        assert(rest.to_multiset() =~= b.remove(i).to_multiset());
        lemma_order_independent(rest, b.remove(i));
        lemma_remove_contribution(b, i);
    }
}

} // verus!
