//! Taking a lock whose file may be in the way.
use vstd::prelude::*;

use crate::error::{ErrorView, SpindleError};
use crate::lock::{
    found_in, law_lock_file_names_its_process, lock_text, lock_timeout_error, may_remove_lock,
    recovery, remove_recoverable_lock, timeout_error, token_of, LockFile, LockFileIdentity,
    LockRead, LockRecovery, SidecarLock, MALFORMED_STALE_AFTER_MS, POLL_INTERVAL_MS,
};

verus! {

/// What comes next for a process that wants a lock.
#[derive(Debug, PartialEq, Eq)]
pub enum LockStep {
    /// Try to create the lock file again.
    Retry,
    /// Remove the file that is in the way.
    Remove,
    /// Wait, then try again.
    Wait {
        /// How long.
        millis: u64,
    },
    /// Give up.
    Fail {
        /// Why.
        error: SpindleError,
    },
}

/// What comes next, with texts as characters.
pub enum LockStepView {
    /// Try again.
    Retry,
    /// Remove the file.
    Remove,
    /// Wait, then try again.
    Wait {
        /// How long.
        millis: u64,
    },
    /// Give up.
    Fail {
        /// Why.
        error: ErrorView,
    },
}

impl View for LockStep {
    type V = LockStepView;

    open spec fn view(&self) -> LockStepView {
        match *self {
            LockStep::Retry => LockStepView::Retry,
            LockStep::Remove => LockStepView::Remove,
            LockStep::Wait { millis } => LockStepView::Wait { millis },
            LockStep::Fail { error } => LockStepView::Fail { error: error@ },
        }
    }
}

/// What comes next while a lock file stays in the way: the process waits until its
/// time is up.
pub open spec fn waiting(
    lock_path: Seq<char>,
    lock: LockRead,
    elapsed_ms: u128,
    timeout_ms: u128,
) -> LockStepView {
    if elapsed_ms >= timeout_ms {
        LockStepView::Fail { error: timeout_error(lock_path, lock) }
    } else {
        LockStepView::Wait { millis: POLL_INTERVAL_MS }
    }
}

/// What comes next once a lock file was found in the way: try again at once if it
/// is gone, remove it if it is abandoned and still the same file, else wait.
pub open spec fn contended(
    lock_path: Seq<char>,
    lock: LockRead,
    owner_alive: bool,
    current: Option<LockFileIdentity>,
    elapsed_ms: u128,
    timeout_ms: u128,
) -> LockStepView {
    match recovery(lock, owner_alive) {
        LockRecovery::Gone => LockStepView::Retry,
        LockRecovery::Remove { identity } => if current == Some(identity) {
            LockStepView::Remove
        } else {
            waiting(lock_path, lock, elapsed_ms, timeout_ms)
        },
        LockRecovery::Keep => waiting(lock_path, lock, elapsed_ms, timeout_ms),
    }
}

/// Decide what comes next after a lock file was in the way: once it is out of the
/// way the process tries again at once, else it waits until its time is up.
pub fn after_contention(
    lock_path: &str,
    lock: &LockRead,
    out_of_the_way: bool,
    elapsed_ms: u128,
    timeout_ms: u128,
) -> (step: LockStep)
    ensures
        step@ == if out_of_the_way {
            LockStepView::Retry
        } else {
            waiting(lock_path@, *lock, elapsed_ms, timeout_ms)
        },
{
    if out_of_the_way {
        LockStep::Retry
    } else if elapsed_ms >= timeout_ms {
        LockStep::Fail { error: lock_timeout_error(lock_path, lock) }
    } else {
        LockStep::Wait { millis: POLL_INTERVAL_MS }
    }
}

impl SidecarLock {
    /// Decide what comes next when the file of this lock is there already: what was
    /// read from it, whether the process that it names is alive, which file is at
    /// the path now, and how much of the time is gone.
    pub fn acquire_with_timeout(
        &self,
        lock: &LockRead,
        owner_alive: bool,
        current: Option<LockFileIdentity>,
        elapsed_ms: u128,
        timeout_ms: u128,
    ) -> (step: LockStep)
        ensures
            step@ == contended(self.path@, *lock, owner_alive, current, elapsed_ms, timeout_ms),
    {
        let gone: bool = match remove_recoverable_lock(lock, owner_alive) {
            LockRecovery::Gone => true,
            LockRecovery::Remove { identity } => {
                if may_remove_lock(identity, current) {
                    return LockStep::Remove;
                }
                false
            },
            LockRecovery::Keep => false,
        };
        after_contention(self.path.as_str(), lock, gone, elapsed_ms, timeout_ms)
    }
}

/// What a process meets each time it tries to take a lock.
pub struct LockTrial {
    /// The file at the path when the process tries to create its own; none lets it
    /// have the lock.
    pub file: Option<LockFile>,
    /// What was then read at the path.
    pub lock: LockRead,
    /// Whether the process that the lock names is alive.
    pub owner_alive: bool,
    /// Which file was at the path last.
    pub current: Option<LockFileIdentity>,
    /// Whether a file that was to be removed was removed.
    pub removed: bool,
    /// How long the process has been trying.
    pub elapsed_ms: u128,
}

/// Whether a process removes the lock file that it meets.
pub open spec fn removes(lock_path: Seq<char>, trial: LockTrial, timeout_ms: u128) -> bool {
    trial.file is Some && contended(
        lock_path,
        trial.lock,
        trial.owner_alive,
        trial.current,
        trial.elapsed_ms,
        timeout_ms,
    ) is Remove
}

/// What comes after a trial that met a lock file, and after its removal where it is
/// to be removed.
pub open spec fn after_trial(
    lock_path: Seq<char>,
    trial: LockTrial,
    timeout_ms: u128,
) -> LockStepView {
    if !removes(lock_path, trial, timeout_ms) {
        contended(
            lock_path,
            trial.lock,
            trial.owner_alive,
            trial.current,
            trial.elapsed_ms,
            timeout_ms,
        )
    } else if trial.removed {
        LockStepView::Retry
    } else {
        waiting(lock_path, trial.lock, trial.elapsed_ms, timeout_ms)
    }
}

/// How far a process has come that wants a lock.
pub enum Acquisition {
    /// It has the lock.
    Taken,
    /// It gave up.
    Failed {
        /// Why.
        error: ErrorView,
    },
    /// It still tries.
    Trying,
}

/// How far a process has come after some trials.
pub open spec fn acquisition(
    lock_path: Seq<char>,
    trials: Seq<LockTrial>,
    timeout_ms: u128,
) -> Acquisition
    decreases trials.len(),
{
    if trials.len() == 0 {
        Acquisition::Trying
    } else if trials[0].file is None {
        Acquisition::Taken
    } else {
        match after_trial(lock_path, trials[0], timeout_ms) {
            LockStepView::Fail { error } => Acquisition::Failed { error },
            _ => acquisition(lock_path, trials.drop_first(), timeout_ms),
        }
    }
}

/// The file of a lock that a process took.
pub open spec fn file_held(identity: LockFileIdentity, process: u32, counter: u64) -> LockFile {
    LockFile { identity, contents: Some(lock_text(process as nat, token_of(process, counter))) }
}

/// Whether trials meet one lock file all the time, and the process that it names is
/// alive.
pub open spec fn held_throughout(trials: Seq<LockTrial>, held: LockFile) -> bool {
    forall|i: int|
        0 <= i < trials.len() ==> {
            &&& (#[trigger] trials[i]).file == Some(held)
            &&& found_in(trials[i].lock, held)
            &&& trials[i].owner_alive
        }
}

/// A lock that a live process holds is never taken and its file never removed. Who
/// wants it keeps trying as long as there is time, and then fails for want of time:
/// not before, and not in any other way.
pub proof fn law_held_lock_is_never_taken(
    lock_path: Seq<char>,
    identity: LockFileIdentity,
    process: u32,
    counter: u64,
    trials: Seq<LockTrial>,
    timeout_ms: u128,
)
    requires
        held_throughout(trials, file_held(identity, process, counter)),
    ensures
        forall|i: int|
            0 <= i < trials.len() ==> (#[trigger] trials[i]).lock is Owner
                && trials[i].lock->owner.pid == process && !removes(
                lock_path,
                trials[i],
                timeout_ms,
            ),
        if exists|i: int| 0 <= i < trials.len() && (#[trigger] trials[i]).elapsed_ms >= timeout_ms {
            acquisition(lock_path, trials, timeout_ms) == (Acquisition::Failed {
                error: timeout_error(lock_path, trials[0].lock),
            })
        } else {
            acquisition(lock_path, trials, timeout_ms) is Trying
        },
    decreases trials.len(),
{
    let held = file_held(identity, process, counter);
    assert forall|i: int| 0 <= i < trials.len() implies (#[trigger] trials[i]).lock is Owner
        && trials[i].lock->owner.pid == process && !removes(lock_path, trials[i], timeout_ms) by {
        assert(trials[i].file == Some(held));
        law_lock_file_names_its_process(trials[i].lock, identity, process, counter);
    }
    if trials.len() > 0 {
        let rest = trials.drop_first();
        assert(trials[0].file == Some(held));
        assert(trials[0].lock is Owner);
        assert forall|i: int| 0 <= i < rest.len() implies {
            &&& (#[trigger] rest[i]).file == Some(held)
            &&& found_in(rest[i].lock, held)
            &&& rest[i].owner_alive
        } by {
            assert(rest[i] == trials[i + 1]);
        }
        law_held_lock_is_never_taken(lock_path, identity, process, counter, rest, timeout_ms);
        if trials[0].elapsed_ms < timeout_ms {
            if exists|i: int|
                0 <= i < trials.len() && (#[trigger] trials[i]).elapsed_ms >= timeout_ms {
                let i = choose|i: int|
                    0 <= i < trials.len() && (#[trigger] trials[i]).elapsed_ms >= timeout_ms;
                assert(rest[i - 1] == trials[i]);
                assert(rest[0] == trials[1]);
                assert(trials[1].lock is Owner);
            } else {
                assert forall|i: int| 0 <= i < rest.len() implies (#[trigger] rest[i]).elapsed_ms
                    < timeout_ms by {
                    assert(rest[i] == trials[i + 1]);
                }
            }
        }
    }
}

/// Who wants a lock that a live process holds gives up in the end: each trial comes
/// at least one poll interval after the one before, so there are only so many until
/// the time is up.
pub proof fn law_waiting_ends(
    lock_path: Seq<char>,
    identity: LockFileIdentity,
    process: u32,
    counter: u64,
    trials: Seq<LockTrial>,
    timeout_ms: u128,
)
    requires
        held_throughout(trials, file_held(identity, process, counter)),
        forall|i: int|
            0 < i < trials.len() ==> (#[trigger] trials[i]).elapsed_ms >= trials[i - 1].elapsed_ms
                + POLL_INTERVAL_MS,
        trials.len() > 0,
        (trials.len() - 1) * POLL_INTERVAL_MS >= timeout_ms,
    ensures
        acquisition(lock_path, trials, timeout_ms) == (Acquisition::Failed {
            error: timeout_error(lock_path, trials[0].lock),
        }),
{
    lemma_time_passes(trials, trials.len() - 1);
    law_held_lock_is_never_taken(lock_path, identity, process, counter, trials, timeout_ms);
    assert(trials[trials.len() - 1].elapsed_ms >= timeout_ms);
}

proof fn lemma_time_passes(trials: Seq<LockTrial>, at: int)
    requires
        0 <= at < trials.len(),
        forall|i: int|
            0 < i < trials.len() ==> (#[trigger] trials[i]).elapsed_ms >= trials[i - 1].elapsed_ms
                + POLL_INTERVAL_MS,
    ensures
        trials[at].elapsed_ms >= at * POLL_INTERVAL_MS,
    decreases at,
{
    if at > 0 {
        lemma_time_passes(trials, at - 1);
    }
}

/// A lock file is removed exactly where it is abandoned, for a dead owner or an old
/// file without one, and is still the file that was read: one that took its place
/// stays.
pub proof fn law_only_abandoned_locks_are_removed(
    lock_path: Seq<char>,
    lock: LockRead,
    owner_alive: bool,
    current: Option<LockFileIdentity>,
    elapsed_ms: u128,
    timeout_ms: u128,
)
    ensures
        contended(lock_path, lock, owner_alive, current, elapsed_ms, timeout_ms) is Remove <==> {
            ||| lock is Owner && !owner_alive && current == Some(lock->Owner_identity)
            ||| lock is Malformed && lock->age_ms is Some && lock->age_ms->0
                >= MALFORMED_STALE_AFTER_MS && current == Some(lock->Malformed_identity)
        },
{
}

/// An abandoned lock is taken over, however little time there is: its file is
/// removed, and who finds none at the next trial has the lock.
pub proof fn law_abandoned_lock_is_taken_over(
    lock_path: Seq<char>,
    trials: Seq<LockTrial>,
    timeout_ms: u128,
)
    requires
        trials.len() >= 2,
        removes(lock_path, trials[0], timeout_ms),
        trials[0].removed,
        trials[1].file is None,
    ensures
        acquisition(lock_path, trials, timeout_ms) is Taken,
{
    assert(trials.drop_first()[0] == trials[1]);
    assert(acquisition(lock_path, trials.drop_first(), timeout_ms) is Taken);
}

} // verus!
