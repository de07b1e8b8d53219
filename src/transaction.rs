//! The per-file atomic replace transaction, as a state machine: the caller
//! performs each action and hands back what came of it as the next event.
//!
//! The original file is only ever touched by `Commit` (an atomic rename of a
//! finished temporary file over it) and `RestorePermissions`; a failed
//! transform discards the temporary output and never reaches either.

use crate::stats::{TaskError, TaskOutcome};
use vstd::prelude::*;

verus! {

/// Where a transaction stands.
#[derive(Clone, Copy, Debug)]
pub enum TxState {
    Idle,
    /// Reading the original content, size and permissions.
    Reading,
    /// The transform writes into a temporary output.
    Transforming { original_size: u64 },
    /// The transform failed; its temporary output is being dropped.
    Discarding,
    /// The temporary output is flushed and renamed over the original.
    Committing { original_size: u64, optimized_size: u64 },
    /// The original permission bits are set on the new file.
    Restoring { original_size: u64, optimized_size: u64 },
    /// Terminal.
    Done { outcome: TaskOutcome },
}

/// What came of the last action.
#[derive(Clone, Copy, Debug, PartialEq, Eq, Structural)]
pub enum TxEvent {
    Begin,
    Read { size: u64 },
    ReadFailed,
    Transformed { size: u64 },
    TransformFailed,
    Discarded,
    Committed,
    CommitFailed,
    PermissionsRestored,
    PermissionsFailed,
}

/// What the caller is to do next.
#[derive(Clone, Copy, Debug, PartialEq, Eq, Structural)]
pub enum TxAction {
    /// Read the original content, its size and its permissions.
    ReadOriginal,
    /// Run the transform into a new temporary output beside the original.
    Transform,
    /// Drop the temporary output.
    Discard,
    /// Flush the temporary output and atomically rename it over the original.
    Commit,
    /// Set the original permission bits on the replaced file.
    RestorePermissions,
    /// The transaction is over; its outcome is in the state.
    Finish,
    /// The event does not belong to the current state; nothing changes.
    Ignore,
}

/// File sizes are at most `i64::MAX` on every supported platform.
pub open spec fn size_ok(e: TxEvent) -> bool {
    match e {
        TxEvent::Read { size } => size <= i64::MAX,
        TxEvent::Transformed { size } => size <= i64::MAX,
        _ => true,
    }
}

/// Sizes held by a state are file sizes.
pub open spec fn state_ok(s: TxState) -> bool {
    match s {
        TxState::Transforming { original_size } => original_size <= i64::MAX,
        TxState::Committing { original_size, optimized_size } => original_size <= i64::MAX
            && optimized_size <= i64::MAX,
        TxState::Restoring { original_size, optimized_size } => original_size <= i64::MAX
            && optimized_size <= i64::MAX,
        _ => true,
    }
}

/// The transition table.
pub open spec fn next(s: TxState, e: TxEvent) -> (TxState, TxAction) {
    match (s, e) {
        (TxState::Idle, TxEvent::Begin) => (TxState::Reading, TxAction::ReadOriginal),
        (TxState::Reading, TxEvent::Read { size }) => (
            TxState::Transforming { original_size: size },
            TxAction::Transform,
        ),
        (TxState::Reading, TxEvent::ReadFailed) => (
            TxState::Done { outcome: Err(TaskError::Io) },
            TxAction::Finish,
        ),
        (TxState::Transforming { original_size }, TxEvent::Transformed { size }) => (
            TxState::Committing { original_size, optimized_size: size },
            TxAction::Commit,
        ),
        (TxState::Transforming { .. }, TxEvent::TransformFailed) => (TxState::Discarding, TxAction::Discard),
        (TxState::Discarding, TxEvent::Discarded) => (
            TxState::Done { outcome: Err(TaskError::Transform) },
            TxAction::Finish,
        ),
        (TxState::Committing { original_size, optimized_size }, TxEvent::Committed) => (
            TxState::Restoring { original_size, optimized_size },
            TxAction::RestorePermissions,
        ),
        (TxState::Committing { .. }, TxEvent::CommitFailed) => (
            TxState::Done { outcome: Err(TaskError::Commit) },
            TxAction::Finish,
        ),
        (TxState::Restoring { original_size, optimized_size }, TxEvent::PermissionsRestored) => (
            TxState::Done { outcome: Ok((original_size - optimized_size) as i64) },
            TxAction::Finish,
        ),
        (TxState::Restoring { .. }, TxEvent::PermissionsFailed) => (
            TxState::Done { outcome: Err(TaskError::Commit) },
            TxAction::Finish,
        ),
        _ => (s, TxAction::Ignore),
    }
}

/// Takes the transaction one step.
pub fn step(s: TxState, e: TxEvent) -> (r: (TxState, TxAction))
    requires
        size_ok(e),
        state_ok(s),
    ensures
        r == next(s, e),
        state_ok(r.0),
{
    match (s, e) {
        (TxState::Idle, TxEvent::Begin) => (TxState::Reading, TxAction::ReadOriginal),
        (TxState::Reading, TxEvent::Read { size }) => (
            TxState::Transforming { original_size: size },
            TxAction::Transform,
        ),
        (TxState::Reading, TxEvent::ReadFailed) => (
            TxState::Done { outcome: Err(TaskError::Io) },
            TxAction::Finish,
        ),
        (TxState::Transforming { original_size }, TxEvent::Transformed { size }) => (
            TxState::Committing { original_size, optimized_size: size },
            TxAction::Commit,
        ),
        (TxState::Transforming { .. }, TxEvent::TransformFailed) => (TxState::Discarding, TxAction::Discard),
        (TxState::Discarding, TxEvent::Discarded) => (
            TxState::Done { outcome: Err(TaskError::Transform) },
            TxAction::Finish,
        ),
        (TxState::Committing { original_size, optimized_size }, TxEvent::Committed) => (
            TxState::Restoring { original_size, optimized_size },
            TxAction::RestorePermissions,
        ),
        (TxState::Committing { .. }, TxEvent::CommitFailed) => (
            TxState::Done { outcome: Err(TaskError::Commit) },
            TxAction::Finish,
        ),
        (TxState::Restoring { original_size, optimized_size }, TxEvent::PermissionsRestored) => {
            (TxState::Done { outcome: Ok(original_size as i64 - optimized_size as i64) }, TxAction::Finish)
        },
        (TxState::Restoring { .. }, TxEvent::PermissionsFailed) => (
            TxState::Done { outcome: Err(TaskError::Commit) },
            TxAction::Finish,
        ),
        _ => (s, TxAction::Ignore),
    }
}

/// The state and the actions after feeding `events` to a fresh transaction.
pub open spec fn run(events: Seq<TxEvent>) -> (TxState, Seq<TxAction>)
    decreases events.len(),
{
    if events.len() == 0 {
        (TxState::Idle, Seq::empty())
    } else {
        let (s, acts) = run(events.drop_last());
        let (s2, a) = next(s, events.last());
        (s2, acts.push(a))
    }
}

/// Event `i` read the original, of size `o`, and started the transform.
pub open spec fn read_at(ev: Seq<TxEvent>, ac: Seq<TxAction>, i: int, o: u64) -> bool {
    0 <= i < ev.len() && ev[i] == (TxEvent::Read { size: o }) && ac[i] == TxAction::Transform
}

/// Event `j` finished the transform, of size `n`, and started the commit.
pub open spec fn transformed_at(ev: Seq<TxEvent>, ac: Seq<TxAction>, j: int, n: u64) -> bool {
    0 <= j < ev.len() && ev[j] == (TxEvent::Transformed { size: n }) && ac[j] == TxAction::Commit
}

/// Event `k` finished the commit and started restoring the permissions.
pub open spec fn committed_at(ev: Seq<TxEvent>, ac: Seq<TxAction>, k: int) -> bool {
    0 <= k < ev.len() && ev[k] == TxEvent::Committed && ac[k] == TxAction::RestorePermissions
}

/// Event `l` finished restoring the permissions.
pub open spec fn restored_at(ev: Seq<TxEvent>, ac: Seq<TxAction>, l: int) -> bool {
    0 <= l < ev.len() && ev[l] == TxEvent::PermissionsRestored && ac[l] == TxAction::Finish
}

/// A full successful transaction shows in the trace: read of size `o`,
/// transform to size `n`, commit, permissions restored, in this order.
pub open spec fn committed_trace(ev: Seq<TxEvent>, ac: Seq<TxAction>, o: u64, n: u64) -> bool {
    exists|i: int, j: int, k: int|
        i < j < k && #[trigger] read_at(ev, ac, i, o) && #[trigger] transformed_at(ev, ac, j, n)
            && #[trigger] committed_at(ev, ac, k)
}

/// Some event read the original, of size `o`, and started the transform.
pub open spec fn has_read(ev: Seq<TxEvent>, ac: Seq<TxAction>, o: u64) -> bool {
    exists|i: int| #[trigger] read_at(ev, ac, i, o)
}

/// The original of size `o` was read, then the transform produced size `n` and the commit started.
pub open spec fn has_transformed(ev: Seq<TxEvent>, ac: Seq<TxAction>, o: u64, n: u64) -> bool {
    exists|i: int, j: int| i < j && #[trigger] read_at(ev, ac, i, o) && #[trigger] transformed_at(ev, ac, j, n)
}

/// The whole commit shows in the trace, with permissions restored, and `d` is the size difference.
pub open spec fn has_succeeded(ev: Seq<TxEvent>, ac: Seq<TxAction>, d: i64) -> bool {
    exists|o: u64, n: u64, l: int|
        d == (o - n) as i64 && #[trigger] committed_trace(ev, ac, o, n) && #[trigger] restored_at(ev, ac, l)
}

/// What the trace so far says, by the state it led to.
pub open spec fn history(ev: Seq<TxEvent>, ac: Seq<TxAction>, s: TxState) -> bool {
    &&& ac.len() == ev.len()
    &&& match s {
        TxState::Idle => !ac.contains(TxAction::Commit) && !ac.contains(TxAction::RestorePermissions) && !ac.contains(TxAction::Discard),
        TxState::Reading => !ac.contains(TxAction::Commit) && !ac.contains(TxAction::RestorePermissions) && !ac.contains(TxAction::Discard),
        TxState::Transforming { original_size } => !ac.contains(TxAction::Commit) && !ac.contains(TxAction::RestorePermissions) && !ac.contains(
            TxAction::Discard,
        ) && has_read(ev, ac, original_size),
        TxState::Discarding => ac.contains(TxAction::Discard) && !ac.contains(TxAction::Commit) && !ac.contains(TxAction::RestorePermissions),
        TxState::Committing { original_size, optimized_size } => !ac.contains(TxAction::Discard)
            && has_transformed(ev, ac, original_size, optimized_size),
        TxState::Restoring { original_size, optimized_size } => !ac.contains(TxAction::Discard)
            && committed_trace(ev, ac, original_size, optimized_size),
        TxState::Done { outcome } => match outcome {
            Ok(d) => !ac.contains(TxAction::Discard) && has_succeeded(ev, ac, d),
            Err(TaskError::Io) => !ac.contains(TxAction::Commit) && !ac.contains(TxAction::RestorePermissions) && !ac.contains(TxAction::Discard),
            Err(TaskError::Transform) => ac.contains(TxAction::Discard) && !ac.contains(TxAction::Commit) && !ac.contains(TxAction::RestorePermissions),
            Err(TaskError::Commit) => !ac.contains(TxAction::Discard) && ac.contains(TxAction::Commit),
        },
    }
}

proof fn lemma_history(ev: Seq<TxEvent>)
    ensures
        history(ev, run(ev).1, run(ev).0),
    decreases ev.len(),
{
    if ev.len() > 0 {
        let p = ev.drop_last();
        lemma_history(p);
        let (s, ac) = run(p);
        let e = ev.last();
        let (s2, a) = next(s, e);
        let ac2 = ac.push(a);
        assert(run(ev) == (s2, ac2));
        assert(ev == p.push(e));
        assert forall|x: TxAction| ac2.contains(x) <==> (ac.contains(x) || x == a) by {
            if ac2.contains(x) {
                let i = choose|i: int| 0 <= i < ac2.len() && ac2[i] == x;
                if i < ac.len() {
                    assert(ac[i] == x);
                }
            }
            if ac.contains(x) {
                let i = choose|i: int| 0 <= i < ac.len() && ac[i] == x;
                assert(ac2[i] == x);
            }
            if x == a {
                assert(ac2[ac.len() as int] == x);
            }
        }
        let last = p.len() as int;
        match s {
            TxState::Reading => {
                if let TxEvent::Read { size } = e {
                    assert(read_at(ev, ac2, last, size));
                }
            },
            TxState::Transforming { original_size } => {
                let i = choose|i: int| #[trigger] read_at(p, ac, i, original_size);
                assert(read_at(ev, ac2, i, original_size));
                if let TxEvent::Transformed { size } = e {
                    assert(transformed_at(ev, ac2, last, size));
                }
            },
            TxState::Committing { original_size, optimized_size } => {
                let (i, j) = choose|i: int, j: int|
                    i < j && #[trigger] read_at(p, ac, i, original_size) && #[trigger] transformed_at(
                        p,
                        ac,
                        j,
                        optimized_size,
                    );
                assert(read_at(ev, ac2, i, original_size));
                assert(transformed_at(ev, ac2, j, optimized_size));
                if e == TxEvent::Committed {
                    assert(committed_at(ev, ac2, last));
                    assert(committed_trace(ev, ac2, original_size, optimized_size));
                }
            },
            TxState::Restoring { original_size, optimized_size } => {
                let (i, j, k) = choose|i: int, j: int, k: int|
                    i < j < k && #[trigger] read_at(p, ac, i, original_size) && #[trigger] transformed_at(
                        p,
                        ac,
                        j,
                        optimized_size,
                    ) && #[trigger] committed_at(p, ac, k);
                assert(read_at(ev, ac2, i, original_size));
                assert(transformed_at(ev, ac2, j, optimized_size));
                assert(committed_at(ev, ac2, k));
                assert(committed_trace(ev, ac2, original_size, optimized_size));
                if e == TxEvent::PermissionsRestored {
                    assert(restored_at(ev, ac2, last));
                }
            },
            TxState::Done { outcome } => {
                if let Ok(d) = outcome {
                    let (o, n, l) = choose|o: u64, n: u64, l: int|
                        d == (o - n) as i64 && #[trigger] committed_trace(p, ac, o, n) && #[trigger] restored_at(
                            p,
                            ac,
                            l,
                        );
                    let (i, j, k) = choose|i: int, j: int, k: int|
                        i < j < k && #[trigger] read_at(p, ac, i, o) && #[trigger] transformed_at(p, ac, j, n)
                            && #[trigger] committed_at(p, ac, k);
                    assert(read_at(ev, ac2, i, o));
                    assert(transformed_at(ev, ac2, j, n));
                    assert(committed_at(ev, ac2, k));
                    assert(committed_trace(ev, ac2, o, n));
                    assert(restored_at(ev, ac2, l));
                }
            },
            _ => {},
        }
    }
}

/// A transaction whose transform failed neither commits nor sets permissions:
/// the original file's content and permission bits are left as they were, and
/// the outcome, once reached, is a transform error.
pub proof fn lemma_failed_transform_keeps_original(events: Seq<TxEvent>)
    ensures
        run(events).1.contains(TxAction::Discard) ==> !run(events).1.contains(TxAction::Commit)
            && !run(events).1.contains(TxAction::RestorePermissions),
        run(events).1.contains(TxAction::Discard) ==> (run(events).0 is Done ==> run(events).0
            == (TxState::Done { outcome: Err(TaskError::Transform) })),
{
    lemma_history(events);
}

/// A transaction reaches success only through the whole commit: the original
/// of size `o` was read, the transform produced size `n`, the output was
/// committed over the original, and then the original permissions were set on
/// it; the reported delta is `o - n`. Nothing was discarded on the way.
pub proof fn lemma_success_is_committed(events: Seq<TxEvent>)
    requires
        forall|i: int| 0 <= i < events.len() ==> size_ok(#[trigger] events[i]),
    ensures
        run(events).0 matches TxState::Done { outcome: Ok(d) } ==> !run(events).1.contains(TxAction::Discard)
            && exists|o: u64, n: u64, l: int|
            d == o - n && #[trigger] committed_trace(events, run(events).1, o, n) && #[trigger] restored_at(
                events,
                run(events).1,
                l,
            ),
{
    lemma_history(events);
    if let TxState::Done { outcome: Ok(d) } = run(events).0 {
        let ac = run(events).1;
        let (o, n, l) = choose|o: u64, n: u64, l: int|
            d == (o - n) as i64 && #[trigger] committed_trace(events, ac, o, n) && #[trigger] restored_at(events, ac, l);
        let (i, j, k) = choose|i: int, j: int, k: int|
            i < j < k && #[trigger] read_at(events, ac, i, o) && #[trigger] transformed_at(events, ac, j, n)
                && #[trigger] committed_at(events, ac, k);
        assert(size_ok(events[i]));
        assert(size_ok(events[j]));
        assert(d == o - n);
    }
}

/// The outcome a transaction has reached after `events`, if it is over.
pub open spec fn outcome_of(events: Seq<TxEvent>) -> Option<TaskOutcome> {
    match run(events).0 {
        TxState::Done { outcome } => Some(outcome),
        _ => None,
    }
}

/// The outcomes of a category's tasks, each fed its own events.
pub open spec fn outcomes_of(tasks: Seq<Seq<TxEvent>>) -> Seq<Option<TaskOutcome>> {
    tasks.map_values(|t: Seq<TxEvent>| outcome_of(t))
}

/// Making the transform of task `j` fail changes the outcome of no other task;
/// task `j` itself ends, if at all, in a transform error.
pub proof fn lemma_task_isolation(tasks: Seq<Seq<TxEvent>>, j: int, failing: Seq<TxEvent>)
    requires
        0 <= j < tasks.len(),
        run(failing).1.contains(TxAction::Discard),
    ensures
        forall|i: int|
            0 <= i < tasks.len() && i != j ==> #[trigger] outcomes_of(tasks.update(j, failing))[i]
                == outcomes_of(tasks)[i],
        outcomes_of(tasks.update(j, failing))[j] is Some ==> outcomes_of(tasks.update(j, failing))[j]
            == Some(Err::<i64, TaskError>(TaskError::Transform)),
{
    lemma_failed_transform_keeps_original(failing);
}

} // verus!
