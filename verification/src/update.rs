//! `wally update`: stash local changes, pull with rebase, and restore them.
use vstd::prelude::*;
use crate::text::{chars_eq, chars_of, concat, ends_with, string_of, trim, trim_chars};

verus! {

// ---------------------------------------------------------------------------
// Reading git's answers
// ---------------------------------------------------------------------------
/// The legacy default branch name.
pub open spec fn master_name() -> Seq<char> {
    seq!['m', 'a', 's', 't', 'e', 'r']
}

/// The modern default branch name.
pub open spec fn main_name() -> Seq<char> {
    seq!['m', 'a', 'i', 'n']
}

/// The branch that `git branch --show-current` names: its trimmed output, or `main` when it
/// prints nothing (a detached HEAD).
pub open spec fn current_branch(output: Seq<char>) -> Seq<char> {
    if trim(output).len() == 0 {
        main_name()
    } else {
        trim(output)
    }
}

/// The current branch, from the output of `git branch --show-current`.
pub fn get_current_branch(output: &str) -> (r: String)
    ensures
        r@ == current_branch(output@),
{
    let cs = chars_of(output);
    let t = trim_chars(cs.as_slice());
    if t.len() == 0 {
        let m: Vec<char> = vec!['m', 'a', 'i', 'n'];
        assert(m@ == main_name());
        string_of(m.as_slice())
    } else {
        string_of(t.as_slice())
    }
}

/// Whether the workspace has changes: `git status --porcelain` printed anything.
pub fn check_if_dirty(status_output: &Vec<u8>) -> (r: bool)
    ensures
        r == (status_output@.len() > 0),
{
    status_output.len() > 0
}

/// `base` joined with the relative path `name` (`Path::join` on Unix).
pub open spec fn path_join(base: Seq<char>, name: Seq<char>) -> Seq<char> {
    if base.len() == 0 {
        name
    } else if ends_with(base, seq!['/']) {
        base + name
    } else {
        base + seq!['/'] + name
    }
}

/// `base` joined with `name`.
fn join_path(base: &[char], name: &[char]) -> (r: Vec<char>)
    ensures
        r@ == path_join(base@, name@),
{
    if base.len() == 0 {
        concat(base, name)
    } else if base[base.len() - 1] == '/' {
        assert(base@.skip(base@.len() - 1int) == seq!['/']);
        concat(base, name)
    } else {
        let slash: Vec<char> = vec!['/'];
        proof {
            let last = base@.skip(base@.len() - 1);
            assert(last[0] == base@[base@.len() - 1]);
            assert(last != seq!['/']);
        }
        let b = concat(base, slash.as_slice());
        concat(b.as_slice(), name)
    }
}

/// The two directories whose presence marks a rebase in progress, inside the git directory
/// that `git rev-parse --git-dir` names: `<dir>/rebase-merge` and `<dir>/rebase-apply`.
pub fn rebase_marker_paths(git_dir_output: &str) -> (r: (String, String))
    ensures
        r.0@ == path_join(trim(git_dir_output@), "rebase-merge"@),
        r.1@ == path_join(trim(git_dir_output@), "rebase-apply"@),
{
    let cs = chars_of(git_dir_output);
    let dir = trim_chars(cs.as_slice());
    let merge = chars_of("rebase-merge");
    let apply = chars_of("rebase-apply");
    let a = join_path(dir.as_slice(), merge.as_slice());
    let b = join_path(dir.as_slice(), apply.as_slice());
    (string_of(a.as_slice()), string_of(b.as_slice()))
}

/// A rebase is in progress when either marker directory exists.
pub fn is_rebase_in_progress(merge_dir_exists: bool, apply_dir_exists: bool) -> (r: bool)
    ensures
        r == (merge_dir_exists || apply_dir_exists),
{
    merge_dir_exists || apply_dir_exists
}

// ---------------------------------------------------------------------------
// The update flow
// ---------------------------------------------------------------------------
/// Where an update stands: which answer it waits for.
#[derive(PartialEq, Eq, Structural, Clone, Copy, Debug)]
pub enum UpdateStage {
    Start,
    Branch,
    Rename,
    Status,
    Stash,
    Pull,
    PullCheck,
    RetryBranch,
    RetryPull,
    RetryCheck,
    Resolve,
    Pop,
    PopReport,
    Done,
}

/// An update in progress.
#[derive(PartialEq, Eq, Structural, Clone, Copy, Debug)]
pub struct UpdateFlow {
    pub stage: UpdateStage,
    /// Local changes were stashed and must be restored.
    pub stashed: bool,
}

/// What the outside world answered to the last action.
pub enum UpdateEvent {
    /// The update was asked for.
    Begin,
    /// `get_current_branch` named this branch.
    CurrentBranch(String),
    /// `git branch -m master main` ran.
    Renamed,
    /// `git status --porcelain` ran; whether the workspace has changes.
    StatusChecked(bool),
    /// `git stash push` ran.
    Stashed,
    /// A `git pull --rebase` ran; whether it succeeded.
    PullFinished(bool),
    /// The rebase markers were looked for; whether a rebase is in progress.
    RebaseChecked(bool),
    /// The conflicts of the rebase were resolved.
    ConflictsResolved,
    /// `git stash pop` ran; whether it succeeded.
    StashPopped(bool),
    /// The conflicts of the stash were shown.
    StashConflictShown,
}

/// What to do next.
pub enum UpdateAction {
    /// Read the current branch.
    ReadBranch,
    /// `git branch -m master main`.
    RenameMasterToMain,
    /// `git status --porcelain`.
    CheckStatus,
    /// `git stash push -m wally-auto-update`.
    StashChanges,
    /// `git pull --rebase`.
    Pull,
    /// Look for the rebase markers.
    CheckRebase,
    /// Help the user resolve the rebase conflicts.
    ResolveConflicts,
    /// Read the current branch again before retrying.
    ReadBranchForRetry,
    /// `git pull --rebase origin <branch>`.
    PullFrom(String),
    /// `git stash pop`.
    PopStash,
    /// List the conflicted files left by the stash.
    ShowStashConflicts,
    /// The update completed.
    Succeed,
    /// The update failed; the network or the remote settings should be checked.
    Fail,
}

/// An event with its text as characters.
pub enum UpdateEventView {
    Begin,
    CurrentBranch(Seq<char>),
    Renamed,
    StatusChecked(bool),
    Stashed,
    PullFinished(bool),
    RebaseChecked(bool),
    ConflictsResolved,
    StashPopped(bool),
    StashConflictShown,
}

/// An action with its text as characters.
pub enum UpdateActionView {
    ReadBranch,
    RenameMasterToMain,
    CheckStatus,
    StashChanges,
    Pull,
    CheckRebase,
    ResolveConflicts,
    ReadBranchForRetry,
    PullFrom(Seq<char>),
    PopStash,
    ShowStashConflicts,
    Succeed,
    Fail,
}

impl View for UpdateEvent {
    type V = UpdateEventView;

    open spec fn view(&self) -> UpdateEventView {
        match self {
            UpdateEvent::Begin => UpdateEventView::Begin,
            UpdateEvent::CurrentBranch(b) => UpdateEventView::CurrentBranch(b@),
            UpdateEvent::Renamed => UpdateEventView::Renamed,
            UpdateEvent::StatusChecked(d) => UpdateEventView::StatusChecked(*d),
            UpdateEvent::Stashed => UpdateEventView::Stashed,
            UpdateEvent::PullFinished(ok) => UpdateEventView::PullFinished(*ok),
            UpdateEvent::RebaseChecked(p) => UpdateEventView::RebaseChecked(*p),
            UpdateEvent::ConflictsResolved => UpdateEventView::ConflictsResolved,
            UpdateEvent::StashPopped(ok) => UpdateEventView::StashPopped(*ok),
            UpdateEvent::StashConflictShown => UpdateEventView::StashConflictShown,
        }
    }
}

impl View for UpdateAction {
    type V = UpdateActionView;

    open spec fn view(&self) -> UpdateActionView {
        match self {
            UpdateAction::ReadBranch => UpdateActionView::ReadBranch,
            UpdateAction::RenameMasterToMain => UpdateActionView::RenameMasterToMain,
            UpdateAction::CheckStatus => UpdateActionView::CheckStatus,
            UpdateAction::StashChanges => UpdateActionView::StashChanges,
            UpdateAction::Pull => UpdateActionView::Pull,
            UpdateAction::CheckRebase => UpdateActionView::CheckRebase,
            UpdateAction::ResolveConflicts => UpdateActionView::ResolveConflicts,
            UpdateAction::ReadBranchForRetry => UpdateActionView::ReadBranchForRetry,
            UpdateAction::PullFrom(b) => UpdateActionView::PullFrom(b@),
            UpdateAction::PopStash => UpdateActionView::PopStash,
            UpdateAction::ShowStashConflicts => UpdateActionView::ShowStashConflicts,
            UpdateAction::Succeed => UpdateActionView::Succeed,
            UpdateAction::Fail => UpdateActionView::Fail,
        }
    }
}

/// The answer that each stage waits for.
pub open spec fn update_accepts(stage: UpdateStage, e: UpdateEventView) -> bool {
    match stage {
        UpdateStage::Start => e is Begin,
        UpdateStage::Branch => e is CurrentBranch,
        UpdateStage::Rename => e is Renamed,
        UpdateStage::Status => e is StatusChecked,
        UpdateStage::Stash => e is Stashed,
        UpdateStage::Pull => e is PullFinished,
        UpdateStage::PullCheck => e is RebaseChecked,
        UpdateStage::RetryBranch => e is CurrentBranch,
        UpdateStage::RetryPull => e is PullFinished,
        UpdateStage::RetryCheck => e is RebaseChecked,
        UpdateStage::Resolve => e is ConflictsResolved,
        UpdateStage::Pop => e is StashPopped,
        UpdateStage::PopReport => e is StashConflictShown,
        UpdateStage::Done => false,
    }
}

/// After the changes are in: restore the stash if there is one, else finish.
pub open spec fn update_finalize(stashed: bool) -> (UpdateFlow, UpdateActionView) {
    if stashed {
        (UpdateFlow { stage: UpdateStage::Pop, stashed }, UpdateActionView::PopStash)
    } else {
        (UpdateFlow { stage: UpdateStage::Done, stashed }, UpdateActionView::Succeed)
    }
}

/// The update's decisions: from where it stands and the last answer, where it stands next
/// and what to do.
pub open spec fn update_next(f: UpdateFlow, e: UpdateEventView) -> (UpdateFlow, UpdateActionView) {
    let st = |s: UpdateStage| UpdateFlow { stage: s, stashed: f.stashed };
    match (f.stage, e) {
        (UpdateStage::Start, _) => (st(UpdateStage::Branch), UpdateActionView::ReadBranch),
        (UpdateStage::Branch, UpdateEventView::CurrentBranch(b)) => if b == master_name() {
            (st(UpdateStage::Rename), UpdateActionView::RenameMasterToMain)
        } else {
            (st(UpdateStage::Status), UpdateActionView::CheckStatus)
        },
        (UpdateStage::Rename, _) => (st(UpdateStage::Status), UpdateActionView::CheckStatus),
        (UpdateStage::Status, UpdateEventView::StatusChecked(dirty)) => if dirty {
            (st(UpdateStage::Stash), UpdateActionView::StashChanges)
        } else {
            (st(UpdateStage::Pull), UpdateActionView::Pull)
        },
        (UpdateStage::Stash, _) => (
            UpdateFlow { stage: UpdateStage::Pull, stashed: true },
            UpdateActionView::Pull,
        ),
        (UpdateStage::Pull, UpdateEventView::PullFinished(ok)) => if ok {
            update_finalize(f.stashed)
        } else {
            (st(UpdateStage::PullCheck), UpdateActionView::CheckRebase)
        },
        (UpdateStage::PullCheck, UpdateEventView::RebaseChecked(p)) => if p {
            (st(UpdateStage::Resolve), UpdateActionView::ResolveConflicts)
        } else {
            (st(UpdateStage::RetryBranch), UpdateActionView::ReadBranchForRetry)
        },
        (UpdateStage::RetryBranch, UpdateEventView::CurrentBranch(b)) => (
            st(UpdateStage::RetryPull),
            UpdateActionView::PullFrom(b),
        ),
        (UpdateStage::RetryPull, UpdateEventView::PullFinished(ok)) => if ok {
            update_finalize(f.stashed)
        } else {
            (st(UpdateStage::RetryCheck), UpdateActionView::CheckRebase)
        },
        (UpdateStage::RetryCheck, UpdateEventView::RebaseChecked(p)) => if p {
            (st(UpdateStage::Resolve), UpdateActionView::ResolveConflicts)
        } else {
            (st(UpdateStage::Done), UpdateActionView::Fail)
        },
        (UpdateStage::Resolve, _) => update_finalize(f.stashed),
        (UpdateStage::Pop, UpdateEventView::StashPopped(ok)) => if ok {
            (st(UpdateStage::Done), UpdateActionView::Succeed)
        } else {
            (st(UpdateStage::PopReport), UpdateActionView::ShowStashConflicts)
        },
        (UpdateStage::PopReport, _) => (st(UpdateStage::Done), UpdateActionView::Succeed),
        _ => (f, UpdateActionView::Fail),
    }
}

impl UpdateFlow {
    /// An update that has not started.
    pub fn new() -> (r: UpdateFlow)
        ensures
            r.stage == UpdateStage::Start,
            !r.stashed,
    {
        UpdateFlow { stage: UpdateStage::Start, stashed: false }
    }

    /// Whether the update has finished.
    pub fn is_done(&self) -> (r: bool)
        ensures
            r == (self.stage == UpdateStage::Done),
    {
        self.stage == UpdateStage::Done
    }

    /// Whether this flow waits for `e`.
    pub fn accepts(&self, e: &UpdateEvent) -> (r: bool)
        ensures
            r == update_accepts(self.stage, e@),
    {
        match (self.stage, e) {
            (UpdateStage::Start, UpdateEvent::Begin) => true,
            (UpdateStage::Branch, UpdateEvent::CurrentBranch(_)) => true,
            (UpdateStage::Rename, UpdateEvent::Renamed) => true,
            (UpdateStage::Status, UpdateEvent::StatusChecked(_)) => true,
            (UpdateStage::Stash, UpdateEvent::Stashed) => true,
            (UpdateStage::Pull, UpdateEvent::PullFinished(_)) => true,
            (UpdateStage::PullCheck, UpdateEvent::RebaseChecked(_)) => true,
            (UpdateStage::RetryBranch, UpdateEvent::CurrentBranch(_)) => true,
            (UpdateStage::RetryPull, UpdateEvent::PullFinished(_)) => true,
            (UpdateStage::RetryCheck, UpdateEvent::RebaseChecked(_)) => true,
            (UpdateStage::Resolve, UpdateEvent::ConflictsResolved) => true,
            (UpdateStage::Pop, UpdateEvent::StashPopped(_)) => true,
            (UpdateStage::PopReport, UpdateEvent::StashConflictShown) => true,
            _ => false,
        }
    }

    /// After the changes are in.
    fn finalize(stashed: bool) -> (r: (UpdateFlow, UpdateAction))
        ensures
            (r.0, r.1@) == update_finalize(stashed),
    {
        if stashed {
            (UpdateFlow { stage: UpdateStage::Pop, stashed }, UpdateAction::PopStash)
        } else {
            (UpdateFlow { stage: UpdateStage::Done, stashed }, UpdateAction::Succeed)
        }
    }

    /// Takes the answer `e` and says what to do next. The branch is renamed only when it is
    /// `master`.
    pub fn step(self, e: UpdateEvent) -> (r: (UpdateFlow, UpdateAction))
        requires
            update_accepts(self.stage, e@),
        ensures
            (r.0, r.1@) == update_next(self, e@),
            r.1@ is RenameMasterToMain ==> e@ == UpdateEventView::CurrentBranch(master_name()),
            e@ == UpdateEventView::PullFinished(true) ==> r.1@ == (if self.stashed {
                UpdateActionView::PopStash
            } else {
                UpdateActionView::Succeed
            }),
            r.1@ == UpdateActionView::Fail ==> self.stage == UpdateStage::RetryCheck && e@
                == UpdateEventView::RebaseChecked(false),
    {
        let stashed = self.stashed;
        match (self.stage, e) {
            (UpdateStage::Start, _) => (
                UpdateFlow { stage: UpdateStage::Branch, stashed },
                UpdateAction::ReadBranch,
            ),
            (UpdateStage::Branch, UpdateEvent::CurrentBranch(b)) => {
                let bc = chars_of(b.as_str());
                let m: Vec<char> = vec!['m', 'a', 's', 't', 'e', 'r'];
                assert(m@ == master_name());
                if chars_eq(bc.as_slice(), m.as_slice()) {
                    (UpdateFlow { stage: UpdateStage::Rename, stashed }, UpdateAction::RenameMasterToMain)
                } else {
                    (UpdateFlow { stage: UpdateStage::Status, stashed }, UpdateAction::CheckStatus)
                }
            },
            (UpdateStage::Rename, _) => (
                UpdateFlow { stage: UpdateStage::Status, stashed },
                UpdateAction::CheckStatus,
            ),
            (UpdateStage::Status, UpdateEvent::StatusChecked(dirty)) => {
                if dirty {
                    (UpdateFlow { stage: UpdateStage::Stash, stashed }, UpdateAction::StashChanges)
                } else {
                    (UpdateFlow { stage: UpdateStage::Pull, stashed }, UpdateAction::Pull)
                }
            },
            (UpdateStage::Stash, _) => (
                UpdateFlow { stage: UpdateStage::Pull, stashed: true },
                UpdateAction::Pull,
            ),
            (UpdateStage::Pull, UpdateEvent::PullFinished(ok)) => {
                if ok {
                    Self::finalize(stashed)
                } else {
                    (UpdateFlow { stage: UpdateStage::PullCheck, stashed }, UpdateAction::CheckRebase)
                }
            },
            (UpdateStage::PullCheck, UpdateEvent::RebaseChecked(p)) => {
                if p {
                    (UpdateFlow { stage: UpdateStage::Resolve, stashed }, UpdateAction::ResolveConflicts)
                } else {
                    (
                        UpdateFlow { stage: UpdateStage::RetryBranch, stashed },
                        UpdateAction::ReadBranchForRetry,
                    )
                }
            },
            (UpdateStage::RetryBranch, UpdateEvent::CurrentBranch(b)) => (
                UpdateFlow { stage: UpdateStage::RetryPull, stashed },
                UpdateAction::PullFrom(b),
            ),
            (UpdateStage::RetryPull, UpdateEvent::PullFinished(ok)) => {
                if ok {
                    Self::finalize(stashed)
                } else {
                    (UpdateFlow { stage: UpdateStage::RetryCheck, stashed }, UpdateAction::CheckRebase)
                }
            },
            (UpdateStage::RetryCheck, UpdateEvent::RebaseChecked(p)) => {
                if p {
                    (UpdateFlow { stage: UpdateStage::Resolve, stashed }, UpdateAction::ResolveConflicts)
                } else {
                    (UpdateFlow { stage: UpdateStage::Done, stashed }, UpdateAction::Fail)
                }
            },
            (UpdateStage::Resolve, _) => Self::finalize(stashed),
            (UpdateStage::Pop, UpdateEvent::StashPopped(ok)) => {
                if ok {
                    (UpdateFlow { stage: UpdateStage::Done, stashed }, UpdateAction::Succeed)
                } else {
                    (
                        UpdateFlow { stage: UpdateStage::PopReport, stashed },
                        UpdateAction::ShowStashConflicts,
                    )
                }
            },
            (UpdateStage::PopReport, _) => (
                UpdateFlow { stage: UpdateStage::Done, stashed },
                UpdateAction::Succeed,
            ),
            _ => (self, UpdateAction::Fail),
        }
    }
}

/// The arguments of the retried pull: `pull --rebase origin <branch>`.
pub fn retry_pull_args(branch: &str) -> (r: Vec<String>)
    ensures
        r@.len() == 4,
        r@[0]@ == "pull"@,
        r@[1]@ == "--rebase"@,
        r@[2]@ == "origin"@,
        r@[3]@ == branch@,
{
    let mut r: Vec<String> = Vec::new();
    r.push(String::from_str("pull"));
    r.push(String::from_str("--rebase"));
    r.push(String::from_str("origin"));
    r.push(string_of(chars_of(branch).as_slice()));
    r
}

// ---------------------------------------------------------------------------
// Whole runs
// ---------------------------------------------------------------------------
/// The flow and the actions after the answers `events`, from a flow that has not started.
pub open spec fn update_run(events: Seq<UpdateEventView>) -> (UpdateFlow, Seq<UpdateActionView>)
    decreases events.len(),
{
    if events.len() == 0 {
        (UpdateFlow { stage: UpdateStage::Start, stashed: false }, seq![])
    } else {
        let prev = update_run(events.drop_last());
        let next = update_next(prev.0, events.last());
        (next.0, prev.1.push(next.1))
    }
}

/// Every answer in `events` is one that the flow waited for.
pub open spec fn update_valid(events: Seq<UpdateEventView>) -> bool
    decreases events.len(),
{
    if events.len() == 0 {
        true
    } else {
        update_valid(events.drop_last()) && update_accepts(
            update_run(events.drop_last()).0.stage,
            events.last(),
        )
    }
}

proof fn lemma_push_contains<A>(s: Seq<A>, x: A, y: A)
    ensures
        s.push(x).contains(y) <==> (s.contains(y) || x == y),
{
    if s.push(x).contains(y) && x != y {
        let k = choose|k: int| 0 <= k < s.push(x).len() && s.push(x)[k] == y;
        assert(s[k] == y);
    }
    if s.contains(y) {
        let k = choose|k: int| 0 <= k < s.len() && s[k] == y;
        assert(s.push(x)[k] == y);
    }
    assert(s.push(x)[s.len() as int] == x);
}

/// What holds after every valid run.
pub open spec fn update_run_inv(f: UpdateFlow, acts: Seq<UpdateActionView>) -> bool {
    &&& (f.stashed || f.stage == UpdateStage::Stash) == acts.contains(UpdateActionView::StashChanges)
    &&& (f.stage == UpdateStage::Pop || f.stage == UpdateStage::PopReport) ==> acts.contains(
        UpdateActionView::PopStash,
    )
    &&& acts.len() > 0 && acts.last() == UpdateActionView::Succeed ==> f.stage == UpdateStage::Done
        && (!f.stashed || acts.contains(UpdateActionView::PopStash))
    &&& f.stage == UpdateStage::Start ==> acts.len() == 0
}

proof fn lemma_update_run_inv(events: Seq<UpdateEventView>)
    requires
        update_valid(events),
    ensures
        update_run_inv(update_run(events).0, update_run(events).1),
        update_run(events).1.contains(UpdateActionView::StashChanges) ==> events.contains(
            UpdateEventView::StatusChecked(true),
        ),
    decreases events.len(),
{
    if events.len() > 0 {
        let prev = update_run(events.drop_last());
        lemma_update_run_inv(events.drop_last());
        lemma_push_contains(events.drop_last(), events.last(), UpdateEventView::StatusChecked(true));
        assert(events.drop_last().push(events.last()) == events);
        let next = update_next(prev.0, events.last());
        let acts = prev.1.push(next.1);
        lemma_push_contains(prev.1, next.1, UpdateActionView::StashChanges);
        lemma_push_contains(prev.1, next.1, UpdateActionView::PopStash);
        assert(acts.last() == next.1);
    }
}

/// An update that stashes local changes restores them before it reports success, and it
/// stashes only when `git status` found changes.
pub proof fn lemma_update_restores_stash(events: Seq<UpdateEventView>)
    requires
        update_valid(events),
    ensures
        ({
            let acts = update_run(events).1;
            acts.len() > 0 && acts.last() == UpdateActionView::Succeed && acts.contains(
                UpdateActionView::StashChanges,
            ) ==> acts.contains(UpdateActionView::PopStash)
        }),
        update_run(events).1.contains(UpdateActionView::StashChanges) ==> events.contains(
            UpdateEventView::StatusChecked(true),
        ),
{
    lemma_update_run_inv(events);
}

/// A pull that succeeds, the first one or the retried one, is followed by restoring the
/// stash when one was made and otherwise by success; the stash flag is kept.
pub proof fn lemma_update_after_pull(f: UpdateFlow, e: UpdateEventView)
    requires
        update_accepts(f.stage, e),
        e == UpdateEventView::PullFinished(true),
    ensures
        f.stage == UpdateStage::Pull || f.stage == UpdateStage::RetryPull,
        update_next(f, e).1 == (if f.stashed {
            UpdateActionView::PopStash
        } else {
            UpdateActionView::Succeed
        }),
        update_next(f, e).0.stashed == f.stashed,
{
}

/// How each stage of the pull and its retry is reached in a run that `step` allows.
proof fn lemma_update_stage_came_from(events: Seq<UpdateEventView>)
    requires
        update_valid(events),
        events.len() > 0,
    ensures
        ({
            let p = update_run(events.drop_last()).0.stage;
            let s = update_run(events).0.stage;
            let e = events.last();
            &&& s == UpdateStage::RetryCheck ==> p == UpdateStage::RetryPull && e
                == UpdateEventView::PullFinished(false)
            &&& s == UpdateStage::RetryPull ==> p == UpdateStage::RetryBranch && e is CurrentBranch
            &&& s == UpdateStage::RetryBranch ==> p == UpdateStage::PullCheck && e
                == UpdateEventView::RebaseChecked(false)
            &&& s == UpdateStage::PullCheck ==> p == UpdateStage::Pull && e
                == UpdateEventView::PullFinished(false)
            &&& update_run(events).1.last() == UpdateActionView::Fail ==> p == UpdateStage::RetryCheck
                && e == UpdateEventView::RebaseChecked(false)
        }),
{
    assert(update_run(events).1.last() == update_next(update_run(events.drop_last()).0, events.last()).1);
}

/// An update reports failure only when both pulls failed with no rebase in progress: the
/// last five answers of a failed run are a failed pull, no rebase, the branch for the
/// retry, a failed retried pull, and again no rebase.
pub proof fn lemma_update_fails_only_after_two_failed_pulls(events: Seq<UpdateEventView>)
    requires
        update_valid(events),
        events.len() > 0,
        update_run(events).1.last() == UpdateActionView::Fail,
    ensures
        events.len() >= 5,
        events[events.len() - 5] == UpdateEventView::PullFinished(false),
        events[events.len() - 4] == UpdateEventView::RebaseChecked(false),
        events[events.len() - 3] is CurrentBranch,
        events[events.len() - 2] == UpdateEventView::PullFinished(false),
        events[events.len() - 1] == UpdateEventView::RebaseChecked(false),
{
    let n = events.len();
    lemma_update_stage_came_from(events);
    let e1 = events.drop_last();
    assert(update_run(e1).0.stage == UpdateStage::RetryCheck);
    assert(e1.len() > 0);
    lemma_update_stage_came_from(e1);
    let e2 = e1.drop_last();
    assert(update_valid(e1));
    assert(update_valid(e2));
    assert(e2.len() > 0);
    lemma_update_stage_came_from(e2);
    let e3 = e2.drop_last();
    assert(update_valid(e3));
    assert(e3.len() > 0);
    lemma_update_stage_came_from(e3);
    let e4 = e3.drop_last();
    assert(update_valid(e4));
    assert(update_run(e4).0.stage == UpdateStage::PullCheck);
    assert(e4.len() > 0);
    lemma_update_stage_came_from(e4);
    assert(e4.last() == events[n - 5]);
    assert(e3.last() == events[n - 4]);
    assert(e2.last() == events[n - 3]);
    assert(e1.last() == events[n - 2]);
}

/// What each answer leads to: `master` is renamed and any other branch goes straight to the
/// status check; changes are stashed exactly when the status shows some; a failed pull
/// looks for a rebase in progress, which is resolved, or else the pull is retried against
/// the branch just read; resolved conflicts and a popped stash lead on to the end; the
/// stash flag is set by stashing and by nothing else.
pub proof fn lemma_update_answers(f: UpdateFlow, e: UpdateEventView)
    requires
        update_accepts(f.stage, e),
    ensures
        ({
            let (g, a) = update_next(f, e);
            &&& g.stashed == (f.stashed || e == UpdateEventView::Stashed)
            &&& f.stage == UpdateStage::Start ==> a == UpdateActionView::ReadBranch
            &&& (f.stage == UpdateStage::Branch && e == UpdateEventView::CurrentBranch(master_name()))
                ==> a == UpdateActionView::RenameMasterToMain
            &&& (f.stage == UpdateStage::Branch && e != UpdateEventView::CurrentBranch(master_name()))
                ==> a == UpdateActionView::CheckStatus
            &&& e == UpdateEventView::Renamed ==> a == UpdateActionView::CheckStatus
            &&& e == UpdateEventView::StatusChecked(true) ==> a == UpdateActionView::StashChanges
            &&& e == UpdateEventView::StatusChecked(false) ==> a == UpdateActionView::Pull
            &&& e == UpdateEventView::Stashed ==> a == UpdateActionView::Pull && g.stashed
            &&& e == UpdateEventView::PullFinished(false) ==> a == UpdateActionView::CheckRebase
            &&& e == UpdateEventView::RebaseChecked(true) ==> a == UpdateActionView::ResolveConflicts
            &&& (e == UpdateEventView::RebaseChecked(false) && f.stage == UpdateStage::PullCheck) ==> a
                == UpdateActionView::ReadBranchForRetry
            &&& (f.stage == UpdateStage::RetryBranch && e is CurrentBranch) ==> a
                == UpdateActionView::PullFrom(e->CurrentBranch_0)
            &&& (e == UpdateEventView::ConflictsResolved || e == UpdateEventView::PullFinished(true))
                ==> a == (if f.stashed {
                UpdateActionView::PopStash
            } else {
                UpdateActionView::Succeed
            })
            &&& e == UpdateEventView::StashPopped(true) ==> a == UpdateActionView::Succeed
            &&& e == UpdateEventView::StashPopped(false) ==> a == UpdateActionView::ShowStashConflicts
            &&& e == UpdateEventView::StashConflictShown ==> a == UpdateActionView::Succeed
            &&& (a == UpdateActionView::Succeed || a == UpdateActionView::Fail) <==> g.stage
                == UpdateStage::Done
        }),
{
}

/// The branch names the update and the push deal with: the legacy `master` and `main`.
pub proof fn lemma_branch_names()
    ensures
        master_name() == "master"@,
        main_name() == "main"@,
{
    reveal_strlit("master");
    reveal_strlit("main");
    assert(master_name() =~= "master"@);
    assert(main_name() =~= "main"@);
}

} // verus!
