//! The sync flow: stash local changes, pull with rebase, restore the changes, and walk the
//! user through any conflict on the way.
use vstd::prelude::*;

verus! {

/// Where a sync stands: which answer it waits for.
#[derive(PartialEq, Eq, Structural, Clone, Copy, Debug)]
pub enum SyncStage {
    Start,
    Status,
    Stash,
    Pull,
    ResolveRebase,
    Pop,
    ResolveStash,
    Done,
}

/// A sync in progress.
#[derive(PartialEq, Eq, Structural, Clone, Copy, Debug)]
pub struct SyncFlow {
    pub stage: SyncStage,
    /// Local changes were stashed and must be restored.
    pub stashed: bool,
}

/// What the outside world answered to the last action.
#[derive(PartialEq, Eq, Structural, Clone, Copy, Debug)]
pub enum SyncEvent {
    /// The sync was asked for.
    Begin,
    /// `git status --porcelain` ran; whether the workspace has changes.
    StatusChecked(bool),
    /// `git stash push -m wally-auto-sync` ran; whether it succeeded.
    Stashed(bool),
    /// `git pull --rebase` ran; whether it succeeded.
    Pulled(bool),
    /// The rebase conflicts were resolved.
    RebaseResolved,
    /// `git stash pop` ran; whether it succeeded.
    Popped(bool),
    /// The stash conflicts were resolved.
    StashResolved,
}

/// What to do next.
#[derive(PartialEq, Eq, Structural, Clone, Copy, Debug)]
pub enum SyncAction {
    /// `git status --porcelain`.
    CheckStatus,
    /// `git stash push -m wally-auto-sync` (after "Local changes detected. Stashing...").
    StashChanges,
    /// `git pull --rebase` (after "Fetching and rebasing...").
    PullRebase,
    /// Walk the user through the rebase conflicts.
    ResolveRebase,
    /// `git stash pop` (after "Restoring local changes...").
    PopStash,
    /// Walk the user through the stash conflicts.
    ResolveStash,
    /// "Sync completed successfully."
    Succeed,
    /// The stash could not be made ("Failed to execute git stash").
    FailStash,
}

/// The answer that each stage waits for.
pub open spec fn sync_accepts(stage: SyncStage, e: SyncEvent) -> bool {
    match stage {
        SyncStage::Start => e is Begin,
        SyncStage::Status => e is StatusChecked,
        SyncStage::Stash => e is Stashed,
        SyncStage::Pull => e is Pulled,
        SyncStage::ResolveRebase => e is RebaseResolved,
        SyncStage::Pop => e is Popped,
        SyncStage::ResolveStash => e is StashResolved,
        SyncStage::Done => false,
    }
}

/// After the pull: restore the stash if there is one, else finish.
pub open spec fn sync_after_pull(stashed: bool) -> (SyncFlow, SyncAction) {
    if stashed {
        (SyncFlow { stage: SyncStage::Pop, stashed }, SyncAction::PopStash)
    } else {
        (SyncFlow { stage: SyncStage::Done, stashed }, SyncAction::Succeed)
    }
}

/// The sync's decisions.
pub open spec fn sync_next(f: SyncFlow, e: SyncEvent) -> (SyncFlow, SyncAction) {
    let to = |s: SyncStage| SyncFlow { stage: s, stashed: f.stashed };
    match (f.stage, e) {
        (SyncStage::Start, _) => (to(SyncStage::Status), SyncAction::CheckStatus),
        (SyncStage::Status, SyncEvent::StatusChecked(dirty)) => if dirty {
            (to(SyncStage::Stash), SyncAction::StashChanges)
        } else {
            (to(SyncStage::Pull), SyncAction::PullRebase)
        },
        (SyncStage::Stash, SyncEvent::Stashed(ok)) => if ok {
            (SyncFlow { stage: SyncStage::Pull, stashed: true }, SyncAction::PullRebase)
        } else {
            (to(SyncStage::Done), SyncAction::FailStash)
        },
        (SyncStage::Pull, SyncEvent::Pulled(ok)) => if ok {
            sync_after_pull(f.stashed)
        } else {
            (to(SyncStage::ResolveRebase), SyncAction::ResolveRebase)
        },
        (SyncStage::ResolveRebase, _) => sync_after_pull(f.stashed),
        (SyncStage::Pop, SyncEvent::Popped(ok)) => if ok {
            (to(SyncStage::Done), SyncAction::Succeed)
        } else {
            (to(SyncStage::ResolveStash), SyncAction::ResolveStash)
        },
        (SyncStage::ResolveStash, _) => (to(SyncStage::Done), SyncAction::Succeed),
        _ => (f, SyncAction::FailStash),
    }
}

impl SyncFlow {
    /// A sync that has not started.
    pub fn new() -> (r: SyncFlow)
        ensures
            r.stage == SyncStage::Start,
            !r.stashed,
    {
        SyncFlow { stage: SyncStage::Start, stashed: false }
    }

    /// Whether this flow waits for `e`.
    pub fn accepts(&self, e: SyncEvent) -> (r: bool)
        ensures
            r == sync_accepts(self.stage, e),
    {
        match (self.stage, e) {
            (SyncStage::Start, SyncEvent::Begin) => true,
            (SyncStage::Status, SyncEvent::StatusChecked(_)) => true,
            (SyncStage::Stash, SyncEvent::Stashed(_)) => true,
            (SyncStage::Pull, SyncEvent::Pulled(_)) => true,
            (SyncStage::ResolveRebase, SyncEvent::RebaseResolved) => true,
            (SyncStage::Pop, SyncEvent::Popped(_)) => true,
            (SyncStage::ResolveStash, SyncEvent::StashResolved) => true,
            _ => false,
        }
    }

    /// Takes the answer `e` and says what to do next.
    pub fn step(self, e: SyncEvent) -> (r: (SyncFlow, SyncAction))
        requires
            sync_accepts(self.stage, e),
        ensures
            r == sync_next(self, e),
    {
        let stashed = self.stashed;
        let after_pull = if stashed {
            (SyncFlow { stage: SyncStage::Pop, stashed }, SyncAction::PopStash)
        } else {
            (SyncFlow { stage: SyncStage::Done, stashed }, SyncAction::Succeed)
        };
        match (self.stage, e) {
            (SyncStage::Start, _) => (SyncFlow { stage: SyncStage::Status, stashed }, SyncAction::CheckStatus),
            (SyncStage::Status, SyncEvent::StatusChecked(dirty)) => {
                if dirty {
                    (SyncFlow { stage: SyncStage::Stash, stashed }, SyncAction::StashChanges)
                } else {
                    (SyncFlow { stage: SyncStage::Pull, stashed }, SyncAction::PullRebase)
                }
            },
            (SyncStage::Stash, SyncEvent::Stashed(ok)) => {
                if ok {
                    (SyncFlow { stage: SyncStage::Pull, stashed: true }, SyncAction::PullRebase)
                } else {
                    (SyncFlow { stage: SyncStage::Done, stashed }, SyncAction::FailStash)
                }
            },
            (SyncStage::Pull, SyncEvent::Pulled(ok)) => {
                if ok {
                    after_pull
                } else {
                    (SyncFlow { stage: SyncStage::ResolveRebase, stashed }, SyncAction::ResolveRebase)
                }
            },
            (SyncStage::ResolveRebase, _) => after_pull,
            (SyncStage::Pop, SyncEvent::Popped(ok)) => {
                if ok {
                    (SyncFlow { stage: SyncStage::Done, stashed }, SyncAction::Succeed)
                } else {
                    (SyncFlow { stage: SyncStage::ResolveStash, stashed }, SyncAction::ResolveStash)
                }
            },
            (SyncStage::ResolveStash, _) => (SyncFlow { stage: SyncStage::Done, stashed }, SyncAction::Succeed),
            _ => (self, SyncAction::FailStash),
        }
    }

    /// Whether the sync has finished.
    pub fn is_done(&self) -> (r: bool)
        ensures
            r == (self.stage == SyncStage::Done),
    {
        self.stage == SyncStage::Done
    }
}

/// The flow and the actions after the answers `events`, from a sync that has not started.
pub open spec fn sync_run(events: Seq<SyncEvent>) -> (SyncFlow, Seq<SyncAction>)
    decreases events.len(),
{
    if events.len() == 0 {
        (SyncFlow { stage: SyncStage::Start, stashed: false }, seq![])
    } else {
        let prev = sync_run(events.drop_last());
        let next = sync_next(prev.0, events.last());
        (next.0, prev.1.push(next.1))
    }
}

/// Every answer in `events` is one that the flow waited for.
pub open spec fn sync_valid(events: Seq<SyncEvent>) -> bool
    decreases events.len(),
{
    if events.len() == 0 {
        true
    } else {
        sync_valid(events.drop_last()) && sync_accepts(sync_run(events.drop_last()).0.stage, events.last())
    }
}

proof fn lemma_sync_inv(events: Seq<SyncEvent>)
    requires
        sync_valid(events),
    ensures
        sync_run(events).0.stashed ==> sync_run(events).1.contains(SyncAction::StashChanges),
        sync_run(events).0.stage == SyncStage::Stash ==> sync_run(events).1.contains(
            SyncAction::StashChanges,
        ),
        (sync_run(events).0.stage == SyncStage::Pop || sync_run(events).0.stage
            == SyncStage::ResolveStash) ==> sync_run(events).1.contains(SyncAction::PopStash),
        sync_run(events).1.len() > 0 && sync_run(events).1.last() == SyncAction::Succeed ==> sync_run(
            events,
        ).0.stage == SyncStage::Done && (!sync_run(events).0.stashed || sync_run(events).1.contains(
            SyncAction::PopStash,
        )),
        sync_run(events).1.contains(SyncAction::StashChanges) ==> (sync_run(events).0.stashed
            || sync_run(events).0.stage == SyncStage::Stash || (sync_run(events).0.stage
            == SyncStage::Done && sync_run(events).1.last() == SyncAction::FailStash)),
    decreases events.len(),
{
    if events.len() > 0 {
        lemma_sync_inv(events.drop_last());
        let prev = sync_run(events.drop_last());
        let next = sync_next(prev.0, events.last());
        let acts = prev.1.push(next.1);
        assert(acts.last() == next.1);
        assert forall|a: SyncAction| prev.1.contains(a) implies #[trigger] acts.contains(a) by {
            let k = choose|k: int| 0 <= k < prev.1.len() && prev.1[k] == a;
            assert(acts[k] == a);
        }
        assert(acts.contains(next.1)) by {
            assert(acts[prev.1.len() as int] == next.1);
        }
        assert forall|a: SyncAction| #[trigger] acts.contains(a) && a != next.1 implies prev.1.contains(a) by {
            let k = choose|k: int| 0 <= k < acts.len() && acts[k] == a;
            assert(prev.1[k] == a);
        }
    }
}

/// A sync that stashed local changes and then reports success has restored them with
/// `git stash pop` first.
pub proof fn lemma_sync_restores_stash(events: Seq<SyncEvent>)
    requires
        sync_valid(events),
    ensures
        ({
            let acts = sync_run(events).1;
            acts.len() > 0 && acts.last() == SyncAction::Succeed && acts.contains(
                SyncAction::StashChanges,
            ) ==> acts.contains(SyncAction::PopStash)
        }),
{
    lemma_sync_inv(events);
}

/// What each answer leads to: changes are stashed exactly when the status shows some, and
/// a failed stash ends the sync; the pull follows; a failed pull, and then a failed
/// `stash pop`, hand over to their conflict loops; after the pull (or its resolution) the
/// stash is popped when one was made, and the sync succeeds otherwise; the stash flag is
/// set by a successful stash and by nothing else.
pub proof fn lemma_sync_answers(f: SyncFlow, e: SyncEvent)
    requires
        sync_accepts(f.stage, e),
    ensures
        ({
            let (g, a) = sync_next(f, e);
            &&& g.stashed == (f.stashed || e == SyncEvent::Stashed(true))
            &&& e == SyncEvent::Begin ==> a == SyncAction::CheckStatus
            &&& e == SyncEvent::StatusChecked(true) ==> a == SyncAction::StashChanges
            &&& e == SyncEvent::StatusChecked(false) ==> a == SyncAction::PullRebase
            &&& e == SyncEvent::Stashed(true) ==> a == SyncAction::PullRebase
            &&& e == SyncEvent::Stashed(false) ==> a == SyncAction::FailStash && g.stage == SyncStage::Done
            &&& e == SyncEvent::Pulled(false) ==> a == SyncAction::ResolveRebase
            &&& (e == SyncEvent::Pulled(true) || e == SyncEvent::RebaseResolved) ==> a == (if f.stashed {
                SyncAction::PopStash
            } else {
                SyncAction::Succeed
            })
            &&& e == SyncEvent::Popped(true) ==> a == SyncAction::Succeed
            &&& e == SyncEvent::Popped(false) ==> a == SyncAction::ResolveStash
            &&& e == SyncEvent::StashResolved ==> a == SyncAction::Succeed
            &&& (a == SyncAction::Succeed || a == SyncAction::FailStash) <==> g.stage == SyncStage::Done
        }),
{
}

} // verus!
