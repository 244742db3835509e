use wally::push::{add_remote_args, push_upstream_args, PushAction, PushEvent, PushFlow, PushOutcome, PushStage};
use wally::resolve::{ResolveAction, ResolveEvent, ResolveLoop, ResolveMode, ResolveStage};
use wally::sync::{SyncAction, SyncEvent, SyncFlow, SyncStage};
use wally::update::{
    check_if_dirty, get_current_branch, is_rebase_in_progress, rebase_marker_paths, retry_pull_args,
    UpdateAction, UpdateEvent, UpdateFlow, UpdateStage,
};

#[test]
fn current_branch_defaults_to_main() {
    assert_eq!(get_current_branch("  feature/x \n"), "feature/x");
    assert_eq!(get_current_branch("\n"), "main");
    assert_eq!(get_current_branch(""), "main");
}

#[test]
fn dirty_when_status_prints_anything() {
    assert!(check_if_dirty(&b" M a.rs\n".to_vec()));
    assert!(check_if_dirty(&b"\n".to_vec()));
    assert!(!check_if_dirty(&Vec::new()));
}

#[test]
fn rebase_markers() {
    let (m, a) = rebase_marker_paths(".git\n");
    assert_eq!(m, ".git/rebase-merge");
    assert_eq!(a, ".git/rebase-apply");
    assert!(is_rebase_in_progress(true, false));
    assert!(is_rebase_in_progress(false, true));
    assert!(!is_rebase_in_progress(false, false));
}

#[test]
fn retry_pull_names_origin_and_branch() {
    assert_eq!(
        retry_pull_args("dev"),
        vec!["pull".to_string(), "--rebase".to_string(), "origin".to_string(), "dev".to_string()]
    );
}

#[test]
fn update_stashes_and_restores() {
    let f = UpdateFlow::new();
    let (f, a) = f.step(UpdateEvent::Begin);
    assert!(matches!(a, UpdateAction::ReadBranch));
    let (f, a) = f.step(UpdateEvent::CurrentBranch("master".to_string()));
    assert!(matches!(a, UpdateAction::RenameMasterToMain));
    let (f, a) = f.step(UpdateEvent::Renamed);
    assert!(matches!(a, UpdateAction::CheckStatus));
    let (f, a) = f.step(UpdateEvent::StatusChecked(true));
    assert!(matches!(a, UpdateAction::StashChanges));
    let (f, a) = f.step(UpdateEvent::Stashed);
    assert!(matches!(a, UpdateAction::Pull));
    assert!(f.stashed);
    let (f, a) = f.step(UpdateEvent::PullFinished(true));
    assert!(matches!(a, UpdateAction::PopStash));
    let (f, a) = f.step(UpdateEvent::StashPopped(true));
    assert!(matches!(a, UpdateAction::Succeed));
    assert!(f.is_done());
}

#[test]
fn update_retries_then_fails() {
    let f = UpdateFlow::new();
    let (f, _) = f.step(UpdateEvent::Begin);
    let (f, _) = f.step(UpdateEvent::CurrentBranch("main".to_string()));
    let (f, a) = f.step(UpdateEvent::StatusChecked(false));
    assert!(matches!(a, UpdateAction::Pull));
    let (f, a) = f.step(UpdateEvent::PullFinished(false));
    assert!(matches!(a, UpdateAction::CheckRebase));
    let (f, a) = f.step(UpdateEvent::RebaseChecked(false));
    assert!(matches!(a, UpdateAction::ReadBranchForRetry));
    let (f, a) = f.step(UpdateEvent::CurrentBranch("main".to_string()));
    match a {
        UpdateAction::PullFrom(b) => assert_eq!(b, "main"),
        _ => panic!("expected a retry"),
    }
    assert!(f.accepts(&UpdateEvent::PullFinished(false)));
    assert!(!f.accepts(&UpdateEvent::Begin));
    let (f, _) = f.step(UpdateEvent::PullFinished(false));
    let (f, a) = f.step(UpdateEvent::RebaseChecked(false));
    assert!(matches!(a, UpdateAction::Fail));
    assert_eq!(f.stage, UpdateStage::Done);
}

#[test]
fn update_stash_conflict_is_reported() {
    let f = UpdateFlow::new();
    let (f, _) = f.step(UpdateEvent::Begin);
    let (f, _) = f.step(UpdateEvent::CurrentBranch("main".to_string()));
    let (f, _) = f.step(UpdateEvent::StatusChecked(true));
    let (f, _) = f.step(UpdateEvent::Stashed);
    let (f, _) = f.step(UpdateEvent::PullFinished(false));
    let (f, a) = f.step(UpdateEvent::RebaseChecked(true));
    assert!(matches!(a, UpdateAction::ResolveConflicts));
    let (f, a) = f.step(UpdateEvent::ConflictsResolved);
    assert!(matches!(a, UpdateAction::PopStash));
    let (f, a) = f.step(UpdateEvent::StashPopped(false));
    assert!(matches!(a, UpdateAction::ShowStashConflicts));
    let (f, a) = f.step(UpdateEvent::StashConflictShown);
    assert!(matches!(a, UpdateAction::Succeed));
    assert!(f.is_done());
}

#[test]
fn sync_stashes_and_restores() {
    let f = SyncFlow::new();
    let (f, a) = f.step(SyncEvent::Begin);
    assert_eq!(a, SyncAction::CheckStatus);
    let (f, a) = f.step(SyncEvent::StatusChecked(true));
    assert_eq!(a, SyncAction::StashChanges);
    let (f, a) = f.step(SyncEvent::Stashed(true));
    assert_eq!(a, SyncAction::PullRebase);
    let (f, a) = f.step(SyncEvent::Pulled(false));
    assert_eq!(a, SyncAction::ResolveRebase);
    let (f, a) = f.step(SyncEvent::RebaseResolved);
    assert_eq!(a, SyncAction::PopStash);
    let (f, a) = f.step(SyncEvent::Popped(false));
    assert_eq!(a, SyncAction::ResolveStash);
    let (f, a) = f.step(SyncEvent::StashResolved);
    assert_eq!(a, SyncAction::Succeed);
    assert_eq!(f.stage, SyncStage::Done);
}

#[test]
fn sync_stops_when_stash_fails() {
    let f = SyncFlow::new();
    let (f, _) = f.step(SyncEvent::Begin);
    let (f, _) = f.step(SyncEvent::StatusChecked(true));
    assert!(f.accepts(SyncEvent::Stashed(false)));
    let (f, a) = f.step(SyncEvent::Stashed(false));
    assert_eq!(a, SyncAction::FailStash);
    assert!(f.is_done());
}

#[test]
fn sync_clean_workspace() {
    let f = SyncFlow::new();
    let (f, _) = f.step(SyncEvent::Begin);
    let (f, a) = f.step(SyncEvent::StatusChecked(false));
    assert_eq!(a, SyncAction::PullRebase);
    let (f, a) = f.step(SyncEvent::Pulled(true));
    assert_eq!(a, SyncAction::Succeed);
    assert!(!f.stashed);
}

#[test]
fn update_rebase_loop_resolves() {
    let l = ResolveLoop::new(ResolveMode::UpdateRebase);
    let (l, a) = l.step(ResolveEvent::Begin);
    assert_eq!(a, ResolveAction::ListConflicts);
    let (l, a) = l.step(ResolveEvent::Listed(2));
    assert_eq!(a, ResolveAction::ShowAndAsk);
    let (l, a) = l.step(ResolveEvent::Chose(0));
    assert_eq!(a, ResolveAction::StageAll);
    let (l, a) = l.step(ResolveEvent::Staged);
    assert_eq!(a, ResolveAction::ContinueRebase);
    let (l, a) = l.step(ResolveEvent::Continued(false));
    assert_eq!(a, ResolveAction::Pause);
    let (l, a) = l.step(ResolveEvent::Paused);
    assert_eq!(a, ResolveAction::ListConflicts);
    let (l, a) = l.step(ResolveEvent::Listed(0));
    assert_eq!(a, ResolveAction::Succeed);
    assert_eq!(l.stage, ResolveStage::Done);
}

#[test]
fn sync_rebase_loop_asks_even_without_conflicts() {
    let l = ResolveLoop::new(ResolveMode::SyncRebase);
    let (l, _) = l.step(ResolveEvent::Begin);
    let (l, a) = l.step(ResolveEvent::Listed(0));
    assert_eq!(a, ResolveAction::ShowAndAsk);
    let (l, a) = l.step(ResolveEvent::Chose(1));
    assert_eq!(a, ResolveAction::AbortRebase);
    let (_, a) = l.step(ResolveEvent::Aborted);
    assert_eq!(a, ResolveAction::Fail);
}

#[test]
fn stash_loop_rechecks_and_drops() {
    let l = ResolveLoop::new(ResolveMode::SyncStash);
    let (l, _) = l.step(ResolveEvent::Begin);
    let (l, _) = l.step(ResolveEvent::Listed(1));
    let (l, a) = l.step(ResolveEvent::Chose(0));
    assert_eq!(a, ResolveAction::ListConflicts);
    assert!(l.accepts(ResolveEvent::Listed(1)));
    assert!(!l.accepts(ResolveEvent::Staged));
    let (l, a) = l.step(ResolveEvent::Listed(1));
    assert_eq!(a, ResolveAction::Pause);
    let (l, _) = l.step(ResolveEvent::Paused);
    let (l, _) = l.step(ResolveEvent::Listed(1));
    let (l, _) = l.step(ResolveEvent::Chose(0));
    let (l, a) = l.step(ResolveEvent::Listed(0));
    assert_eq!(a, ResolveAction::DropStash);
    let (_, a) = l.step(ResolveEvent::Dropped);
    assert_eq!(a, ResolveAction::Succeed);
}

#[test]
fn stash_loop_abort() {
    let l = ResolveLoop::new(ResolveMode::SyncStash);
    let (l, _) = l.step(ResolveEvent::Begin);
    let (l, _) = l.step(ResolveEvent::Listed(3));
    let (_, a) = l.step(ResolveEvent::Chose(1));
    assert_eq!(a, ResolveAction::Fail);
}

#[test]
fn push_without_remote_sets_upstream() {
    let f = PushFlow::new();
    let (f, a) = f.step(PushEvent::Begin);
    assert!(matches!(a, PushAction::ReadBranch));
    let (f, a) = f.step(PushEvent::BranchOutput("master\n".to_string()));
    assert!(matches!(a, PushAction::AskRename));
    let (f, a) = f.step(PushEvent::RenameAnswer(true));
    assert!(matches!(a, PushAction::RenameBranch));
    let (f, a) = f.step(PushEvent::Renamed);
    assert!(matches!(a, PushAction::ListRemotes));
    assert_eq!(f.branch, "main");
    let (f, a) = f.step(PushEvent::RemotesListed(false));
    assert!(matches!(a, PushAction::AskRemoteUrl));
    let (f, a) = f.step(PushEvent::UrlEntered("git@host:r.git".to_string()));
    match a {
        PushAction::AddRemote(u) => assert_eq!(u, "git@host:r.git"),
        _ => panic!("expected the remote to be added"),
    }
    let (f, a) = f.step(PushEvent::RemoteAdded);
    match a {
        PushAction::PushUpstream(b) => assert_eq!(b, "main"),
        _ => panic!("expected an upstream push"),
    }
    let (f, a) = f.step(PushEvent::UpstreamPushed);
    assert!(matches!(a, PushAction::Finish(PushOutcome::UpstreamSet)));
    assert!(f.is_done());
}

#[test]
fn push_force_only_after_consent() {
    let f = PushFlow::new();
    let (f, _) = f.step(PushEvent::Begin);
    let (f, _) = f.step(PushEvent::BranchOutput("dev".to_string()));
    let (f, _) = f.step(PushEvent::RemotesListed(true));
    let (f, a) = f.step(PushEvent::Pushed(false));
    assert!(matches!(a, PushAction::CheckUpstream));
    let (f, a) = f.step(PushEvent::UpstreamChecked(true));
    assert!(matches!(a, PushAction::AskForce));
    let (g, a) = f.step(PushEvent::ForceAnswer(false));
    assert!(matches!(a, PushAction::Finish(PushOutcome::Aborted)));
    assert_eq!(g.stage, PushStage::Done);
}

#[test]
fn push_force_outcomes() {
    let f = PushFlow::new();
    let (f, _) = f.step(PushEvent::Begin);
    let (f, _) = f.step(PushEvent::BranchOutput("dev".to_string()));
    let (f, _) = f.step(PushEvent::RemotesListed(true));
    let (f, _) = f.step(PushEvent::Pushed(false));
    let (f, _) = f.step(PushEvent::UpstreamChecked(true));
    let (f, a) = f.step(PushEvent::ForceAnswer(true));
    assert!(matches!(a, PushAction::ForcePush));
    let (_, a) = f.step(PushEvent::ForcePushed(false));
    assert!(matches!(a, PushAction::Finish(PushOutcome::ForceFailed)));
}

#[test]
fn push_missing_upstream() {
    let f = PushFlow::new();
    let (f, _) = f.step(PushEvent::Begin);
    let (f, _) = f.step(PushEvent::BranchOutput("feat/x\n".to_string()));
    let (f, _) = f.step(PushEvent::RemotesListed(true));
    let (f, _) = f.step(PushEvent::Pushed(false));
    let (f, a) = f.step(PushEvent::UpstreamChecked(false));
    match a {
        PushAction::PushUpstream(b) => assert_eq!(b, "feat/x"),
        _ => panic!("expected an upstream push"),
    }
    let (_, a) = f.step(PushEvent::UpstreamPushed);
    assert!(matches!(a, PushAction::Finish(PushOutcome::UpstreamSet)));
}

#[test]
fn push_success_and_args() {
    let f = PushFlow::new();
    let (f, _) = f.step(PushEvent::Begin);
    let (f, _) = f.step(PushEvent::BranchOutput("main".to_string()));
    let (f, _) = f.step(PushEvent::RemotesListed(true));
    let (_, a) = f.step(PushEvent::Pushed(true));
    assert!(matches!(a, PushAction::Finish(PushOutcome::Pushed)));
    assert_eq!(add_remote_args("u"), vec!["remote", "add", "origin", "u"]);
    assert_eq!(push_upstream_args("b"), vec!["push", "-u", "origin", "b"]);
}
