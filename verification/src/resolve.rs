//! The loops that walk the user through resolving conflicts, as decisions on the answers
//! they get.
use vstd::prelude::*;

verus! {

/// Which conflict loop runs.
#[derive(PartialEq, Eq, Structural, Clone, Copy, Debug)]
pub enum ResolveMode {
    /// `wally update` after a failed rebase: stop as soon as no file is conflicted.
    UpdateRebase,
    /// The sync flow after a failed rebase: always show the conflicts and ask.
    SyncRebase,
    /// The sync flow after a failed `stash pop`: ask, then check that no conflict is left and
    /// drop the stash.
    SyncStash,
}

/// Where a conflict loop stands.
#[derive(PartialEq, Eq, Structural, Clone, Copy, Debug)]
pub enum ResolveStage {
    Start,
    Listing,
    Asking,
    Aborting,
    Staging,
    Continuing,
    Rechecking,
    Dropping,
    Pausing,
    Done,
}

/// A conflict loop in progress.
#[derive(PartialEq, Eq, Structural, Clone, Copy, Debug)]
pub struct ResolveLoop {
    pub mode: ResolveMode,
    pub stage: ResolveStage,
}

/// What the outside world answered to the last action.
#[derive(PartialEq, Eq, Structural, Clone, Copy, Debug)]
pub enum ResolveEvent {
    /// The loop was entered.
    Begin,
    /// The conflicted files were listed; how many there are.
    Listed(usize),
    /// The user picked entry `n` of the menu (0: resolved, 1: abort).
    Chose(usize),
    /// `git rebase --abort` ran.
    Aborted,
    /// `git add .` ran.
    Staged,
    /// `git rebase --continue` ran; whether it succeeded.
    Continued(bool),
    /// `git stash drop` ran.
    Dropped,
    /// The pause after a failed attempt is over.
    Paused,
}

/// What to do next.
#[derive(PartialEq, Eq, Structural, Clone, Copy, Debug)]
pub enum ResolveAction {
    /// List the conflicted files (`git status --porcelain`).
    ListConflicts,
    /// Show the conflicts and ask whether they are resolved.
    ShowAndAsk,
    /// `git rebase --abort`.
    AbortRebase,
    /// `git add .`.
    StageAll,
    /// `git rebase --continue` with `GIT_EDITOR=true`.
    ContinueRebase,
    /// `git stash drop`.
    DropStash,
    /// Say the conflicts are still there and wait before trying again.
    Pause,
    /// The conflicts are resolved.
    Succeed,
    /// The user gave up.
    Fail,
}

/// The answer that each stage waits for.
pub open spec fn resolve_accepts(l: ResolveLoop, e: ResolveEvent) -> bool {
    match l.stage {
        ResolveStage::Start => e is Begin,
        ResolveStage::Listing => e is Listed,
        ResolveStage::Asking => e is Chose,
        ResolveStage::Aborting => e is Aborted,
        ResolveStage::Staging => e is Staged,
        ResolveStage::Continuing => e is Continued,
        ResolveStage::Rechecking => e is Listed,
        ResolveStage::Dropping => e is Dropped,
        ResolveStage::Pausing => e is Paused,
        ResolveStage::Done => false,
    }
}

/// The loop's decisions.
pub open spec fn resolve_next(l: ResolveLoop, e: ResolveEvent) -> (ResolveLoop, ResolveAction) {
    let to = |s: ResolveStage| ResolveLoop { mode: l.mode, stage: s };
    match (l.stage, e) {
        (ResolveStage::Start, _) => (to(ResolveStage::Listing), ResolveAction::ListConflicts),
        (ResolveStage::Listing, ResolveEvent::Listed(n)) => if n == 0 && l.mode
            == ResolveMode::UpdateRebase {
            (to(ResolveStage::Done), ResolveAction::Succeed)
        } else {
            (to(ResolveStage::Asking), ResolveAction::ShowAndAsk)
        },
        (ResolveStage::Asking, ResolveEvent::Chose(c)) => if c == 1 {
            if l.mode == ResolveMode::SyncStash {
                (to(ResolveStage::Done), ResolveAction::Fail)
            } else {
                (to(ResolveStage::Aborting), ResolveAction::AbortRebase)
            }
        } else if l.mode == ResolveMode::SyncStash {
            (to(ResolveStage::Rechecking), ResolveAction::ListConflicts)
        } else {
            (to(ResolveStage::Staging), ResolveAction::StageAll)
        },
        (ResolveStage::Aborting, _) => (to(ResolveStage::Done), ResolveAction::Fail),
        (ResolveStage::Staging, _) => (to(ResolveStage::Continuing), ResolveAction::ContinueRebase),
        (ResolveStage::Continuing, ResolveEvent::Continued(ok)) => if ok {
            (to(ResolveStage::Done), ResolveAction::Succeed)
        } else {
            (to(ResolveStage::Pausing), ResolveAction::Pause)
        },
        (ResolveStage::Rechecking, ResolveEvent::Listed(n)) => if n == 0 {
            (to(ResolveStage::Dropping), ResolveAction::DropStash)
        } else {
            (to(ResolveStage::Pausing), ResolveAction::Pause)
        },
        (ResolveStage::Dropping, _) => (to(ResolveStage::Done), ResolveAction::Succeed),
        (ResolveStage::Pausing, _) => (to(ResolveStage::Listing), ResolveAction::ListConflicts),
        _ => (l, ResolveAction::Fail),
    }
}

impl ResolveLoop {
    /// A loop of the given kind that has not started.
    pub fn new(mode: ResolveMode) -> (r: ResolveLoop)
        ensures
            r.mode == mode,
            r.stage == ResolveStage::Start,
    {
        ResolveLoop { mode, stage: ResolveStage::Start }
    }

    /// Whether this loop waits for `e`.
    pub fn accepts(&self, e: ResolveEvent) -> (r: bool)
        ensures
            r == resolve_accepts(*self, e),
    {
        match (self.stage, e) {
            (ResolveStage::Start, ResolveEvent::Begin) => true,
            (ResolveStage::Listing, ResolveEvent::Listed(_)) => true,
            (ResolveStage::Asking, ResolveEvent::Chose(_)) => true,
            (ResolveStage::Aborting, ResolveEvent::Aborted) => true,
            (ResolveStage::Staging, ResolveEvent::Staged) => true,
            (ResolveStage::Continuing, ResolveEvent::Continued(_)) => true,
            (ResolveStage::Rechecking, ResolveEvent::Listed(_)) => true,
            (ResolveStage::Dropping, ResolveEvent::Dropped) => true,
            (ResolveStage::Pausing, ResolveEvent::Paused) => true,
            _ => false,
        }
    }

    /// Takes the answer `e` and says what to do next.
    pub fn step(self, e: ResolveEvent) -> (r: (ResolveLoop, ResolveAction))
        requires
            resolve_accepts(self, e),
        ensures
            r == resolve_next(self, e),
    {
        let mode = self.mode;
        let to = |s: ResolveStage| -> (r: ResolveLoop)
            ensures
                r == (ResolveLoop { mode, stage: s }),
            { ResolveLoop { mode, stage: s } };
        match (self.stage, e) {
            (ResolveStage::Start, _) => (to(ResolveStage::Listing), ResolveAction::ListConflicts),
            (ResolveStage::Listing, ResolveEvent::Listed(n)) => {
                if n == 0 && mode == ResolveMode::UpdateRebase {
                    (to(ResolveStage::Done), ResolveAction::Succeed)
                } else {
                    (to(ResolveStage::Asking), ResolveAction::ShowAndAsk)
                }
            },
            (ResolveStage::Asking, ResolveEvent::Chose(c)) => {
                if c == 1 {
                    if mode == ResolveMode::SyncStash {
                        (to(ResolveStage::Done), ResolveAction::Fail)
                    } else {
                        (to(ResolveStage::Aborting), ResolveAction::AbortRebase)
                    }
                } else if mode == ResolveMode::SyncStash {
                    (to(ResolveStage::Rechecking), ResolveAction::ListConflicts)
                } else {
                    (to(ResolveStage::Staging), ResolveAction::StageAll)
                }
            },
            (ResolveStage::Aborting, _) => (to(ResolveStage::Done), ResolveAction::Fail),
            (ResolveStage::Staging, _) => (to(ResolveStage::Continuing), ResolveAction::ContinueRebase),
            (ResolveStage::Continuing, ResolveEvent::Continued(ok)) => {
                if ok {
                    (to(ResolveStage::Done), ResolveAction::Succeed)
                } else {
                    (to(ResolveStage::Pausing), ResolveAction::Pause)
                }
            },
            (ResolveStage::Rechecking, ResolveEvent::Listed(n)) => {
                if n == 0 {
                    (to(ResolveStage::Dropping), ResolveAction::DropStash)
                } else {
                    (to(ResolveStage::Pausing), ResolveAction::Pause)
                }
            },
            (ResolveStage::Dropping, _) => (to(ResolveStage::Done), ResolveAction::Succeed),
            (ResolveStage::Pausing, _) => (to(ResolveStage::Listing), ResolveAction::ListConflicts),
            _ => (self, ResolveAction::Fail),
        }
    }
}

/// The loop after the answers `events`, from a loop of kind `mode` that has not started,
/// with the actions it asked for.
pub open spec fn resolve_run(mode: ResolveMode, events: Seq<ResolveEvent>) -> (ResolveLoop, Seq<ResolveAction>)
    decreases events.len(),
{
    if events.len() == 0 {
        (ResolveLoop { mode, stage: ResolveStage::Start }, seq![])
    } else {
        let prev = resolve_run(mode, events.drop_last());
        let next = resolve_next(prev.0, events.last());
        (next.0, prev.1.push(next.1))
    }
}

/// A rebase is continued only after the user said the conflicts were resolved and the files
/// were staged, and a rebase the user aborted is never continued: in every run, each
/// `ContinueRebase` comes right after `StageAll`, and `StageAll` right after the answer
/// "resolved".
pub proof fn lemma_continue_follows_resolution(mode: ResolveMode, events: Seq<ResolveEvent>, k: int)
    requires
        0 <= k < events.len(),
        resolve_run(mode, events).1[k] == ResolveAction::ContinueRebase,
    ensures
        k >= 1,
        resolve_run(mode, events).1[k - 1] == ResolveAction::StageAll,
        events[k - 1] is Chose && events[k - 1]->Chose_0 != 1,
    decreases events.len(),
{
    lemma_run_facts(mode, events);
    if k < events.len() - 1 {
        lemma_run_prefix(mode, events);
        lemma_continue_follows_resolution(mode, events.drop_last(), k);
    } else {
        let prev = resolve_run(mode, events.drop_last());
        assert(prev.0.stage == ResolveStage::Staging);
        lemma_run_facts(mode, events.drop_last());
        lemma_stage_staging(mode, events.drop_last());
    }
}

/// A rebase is aborted only when the user asked for it: in every run, each `AbortRebase`
/// answers the choice "abort" (entry 1) of a rebase loop.
pub proof fn lemma_abort_only_on_request(mode: ResolveMode, events: Seq<ResolveEvent>, k: int)
    requires
        0 <= k < events.len(),
        resolve_run(mode, events).1[k] == ResolveAction::AbortRebase,
    ensures
        mode != ResolveMode::SyncStash,
        events[k] == ResolveEvent::Chose(1),
    decreases events.len(),
{
    lemma_run_facts(mode, events);
    if k < events.len() - 1 {
        lemma_run_prefix(mode, events);
        lemma_abort_only_on_request(mode, events.drop_last(), k);
    } else {
        lemma_run_facts(mode, events.drop_last());
    }
}

/// Every answer of `events` is one the loop waits for when it comes (the runs that `step`
/// allows).
pub open spec fn resolve_valid(mode: ResolveMode, events: Seq<ResolveEvent>) -> bool
    decreases events.len(),
{
    events.len() == 0 || (resolve_valid(mode, events.drop_last()) && resolve_accepts(
        resolve_run(mode, events.drop_last()).0,
        events.last(),
    ))
}

/// The stash is dropped only once no conflict is left: in every run that `step` allows,
/// each `DropStash` answers a listing of zero conflicted files, taken right after the user
/// said the stash conflicts were resolved.
pub proof fn lemma_drop_only_when_clear(mode: ResolveMode, events: Seq<ResolveEvent>, k: int)
    requires
        resolve_valid(mode, events),
        0 <= k < events.len(),
        resolve_run(mode, events).1[k] == ResolveAction::DropStash,
    ensures
        mode == ResolveMode::SyncStash,
        events[k] == ResolveEvent::Listed(0),
        k >= 1,
        events[k - 1] is Chose && events[k - 1]->Chose_0 != 1,
    decreases events.len(),
{
    lemma_run_facts(mode, events);
    if k < events.len() - 1 {
        lemma_run_prefix(mode, events);
        lemma_drop_only_when_clear(mode, events.drop_last(), k);
    } else {
        let prev = resolve_run(mode, events.drop_last());
        lemma_run_facts(mode, events.drop_last());
        assert(prev.0.stage == ResolveStage::Rechecking);
        lemma_stage_rechecking(mode, events.drop_last());
    }
}

/// A loop rechecks the conflicts only in the stash loop, right after the answer
/// "resolved".
proof fn lemma_stage_rechecking(mode: ResolveMode, events: Seq<ResolveEvent>)
    requires
        resolve_valid(mode, events),
        resolve_run(mode, events).0.stage == ResolveStage::Rechecking,
    ensures
        mode == ResolveMode::SyncStash,
        events.len() >= 1,
        events.last() is Chose && events.last()->Chose_0 != 1,
    decreases events.len(),
{
    lemma_run_facts(mode, events);
    if events.len() > 0 {
        lemma_run_facts(mode, events.drop_last());
    }
}

/// What each answer leads to: the conflicts are listed first; the update's loop stops as
/// soon as none is listed, the others always show them and ask; "abort" aborts the rebase
/// (and gives up the stash loop), "resolved" stages and continues the rebase, or rechecks
/// in the stash loop; a continued rebase succeeds, a failed one pauses and lists again; the
/// stash loop drops the stash when the recheck finds nothing and pauses otherwise.
pub proof fn lemma_resolve_answers(l: ResolveLoop, e: ResolveEvent)
    requires
        resolve_accepts(l, e),
    ensures
        ({
            let (m, a) = resolve_next(l, e);
            &&& m.mode == l.mode
            &&& e == ResolveEvent::Begin ==> a == ResolveAction::ListConflicts
            &&& (l.stage == ResolveStage::Listing && e == ResolveEvent::Listed(0) && l.mode
                == ResolveMode::UpdateRebase) ==> a == ResolveAction::Succeed
            &&& (l.stage == ResolveStage::Listing && e is Listed && (e->Listed_0 != 0 || l.mode
                != ResolveMode::UpdateRebase)) ==> a == ResolveAction::ShowAndAsk
            &&& (e == ResolveEvent::Chose(1) && l.mode != ResolveMode::SyncStash) ==> a
                == ResolveAction::AbortRebase
            &&& (e == ResolveEvent::Chose(1) && l.mode == ResolveMode::SyncStash) ==> a
                == ResolveAction::Fail
            &&& (e is Chose && e->Chose_0 != 1 && l.mode != ResolveMode::SyncStash) ==> a
                == ResolveAction::StageAll
            &&& (e is Chose && e->Chose_0 != 1 && l.mode == ResolveMode::SyncStash) ==> a
                == ResolveAction::ListConflicts
            &&& e == ResolveEvent::Aborted ==> a == ResolveAction::Fail
            &&& e == ResolveEvent::Staged ==> a == ResolveAction::ContinueRebase
            &&& e == ResolveEvent::Continued(true) ==> a == ResolveAction::Succeed
            &&& e == ResolveEvent::Continued(false) ==> a == ResolveAction::Pause
            &&& (l.stage == ResolveStage::Rechecking && e == ResolveEvent::Listed(0)) ==> a
                == ResolveAction::DropStash
            &&& (l.stage == ResolveStage::Rechecking && e is Listed && e->Listed_0 != 0) ==> a
                == ResolveAction::Pause
            &&& e == ResolveEvent::Dropped ==> a == ResolveAction::Succeed
            &&& e == ResolveEvent::Paused ==> a == ResolveAction::ListConflicts
            &&& (a == ResolveAction::Succeed || a == ResolveAction::Fail) <==> m.stage == ResolveStage::Done
        }),
{
}

proof fn lemma_run_facts(mode: ResolveMode, events: Seq<ResolveEvent>)
    ensures
        resolve_run(mode, events).1.len() == events.len(),
        resolve_run(mode, events).0.mode == mode,
    decreases events.len(),
{
    if events.len() > 0 {
        lemma_run_facts(mode, events.drop_last());
    }
}

proof fn lemma_run_prefix(mode: ResolveMode, events: Seq<ResolveEvent>)
    requires
        events.len() > 0,
    ensures
        forall|j: int|
            0 <= j < events.len() - 1 ==> #[trigger] resolve_run(mode, events).1[j] == resolve_run(
                mode,
                events.drop_last(),
            ).1[j],
{
    lemma_run_facts(mode, events.drop_last());
}

/// A loop waits for the staging only right after the answer "resolved" asked it to stage.
proof fn lemma_stage_staging(mode: ResolveMode, events: Seq<ResolveEvent>)
    requires
        resolve_run(mode, events).0.stage == ResolveStage::Staging,
    ensures
        events.len() >= 1,
        resolve_run(mode, events).1.last() == ResolveAction::StageAll,
        events.last() is Chose && events.last()->Chose_0 != 1,
    decreases events.len(),
{
    lemma_run_facts(mode, events);
    if events.len() > 0 {
        lemma_run_facts(mode, events.drop_last());
    }
}

} // verus!
