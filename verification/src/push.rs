//! `wally push`: push, setting the upstream when missing and offering a safe force push
//! when the remote history differs.
use vstd::prelude::*;
use crate::text::{chars_eq, chars_of, string_of, string_views, trim, trim_chars};
use crate::update::master_name;

verus! {

/// Where a push stands: which answer it waits for.
#[derive(PartialEq, Eq, Structural, Clone, Copy, Debug)]
pub enum PushStage {
    Start,
    Branch,
    RenameQuestion,
    Rename,
    Remotes,
    Url,
    AddRemote,
    Upstream,
    Push,
    UpstreamCheck,
    ForceQuestion,
    Force,
    Done,
}

/// How a push ended.
#[derive(PartialEq, Eq, Structural, Clone, Copy, Debug)]
pub enum PushOutcome {
    /// "Push successful!"
    Pushed,
    /// The branch was pushed with `-u` to set its upstream.
    UpstreamSet,
    /// The force push ran and succeeded.
    ForcePushed,
    /// "Force push failed. Someone else may have pushed new changes."
    ForceFailed,
    /// "Push aborted. You should 'wally update' to sync with remote."
    Aborted,
}

/// What the outside world answered to the last action.
pub enum PushEvent {
    Begin,
    /// The output of `git branch --show-current`.
    BranchOutput(String),
    /// Whether the user agreed to rename `master` to `main`.
    RenameAnswer(bool),
    /// `git branch -m master main` ran.
    Renamed,
    /// Whether `git remote` printed anything.
    RemotesListed(bool),
    /// The remote URL the user entered.
    UrlEntered(String),
    /// `git remote add origin <url>` ran.
    RemoteAdded,
    /// `git push -u origin <branch>` ran.
    UpstreamPushed,
    /// `git push` ran; whether it succeeded.
    Pushed(bool),
    /// `git rev-parse --abbrev-ref @{u}` ran; whether it ran and succeeded.
    UpstreamChecked(bool),
    /// Whether the user agreed to force the push.
    ForceAnswer(bool),
    /// `git push --force-with-lease` ran; whether it succeeded.
    ForcePushed(bool),
}

/// What to do next.
pub enum PushAction {
    /// `git branch --show-current`.
    ReadBranch,
    /// Ask whether to rename `master` to `main`.
    AskRename,
    /// `git branch -m master main`.
    RenameBranch,
    /// `git remote`.
    ListRemotes,
    /// Ask for the remote URL.
    AskRemoteUrl,
    /// `git remote add origin <url>`.
    AddRemote(String),
    /// `git push -u origin <branch>`.
    PushUpstream(String),
    /// `git push`.
    Push,
    /// `git rev-parse --abbrev-ref @{u}`.
    CheckUpstream,
    /// Ask whether to force the push.
    AskForce,
    /// `git push --force-with-lease`.
    ForcePush,
    /// The push is over.
    Finish(PushOutcome),
}

/// An event with its text as characters.
pub enum PushEventView {
    Begin,
    BranchOutput(Seq<char>),
    RenameAnswer(bool),
    Renamed,
    RemotesListed(bool),
    UrlEntered(Seq<char>),
    RemoteAdded,
    UpstreamPushed,
    Pushed(bool),
    UpstreamChecked(bool),
    ForceAnswer(bool),
    ForcePushed(bool),
}

/// An action with its text as characters.
pub enum PushActionView {
    ReadBranch,
    AskRename,
    RenameBranch,
    ListRemotes,
    AskRemoteUrl,
    AddRemote(Seq<char>),
    PushUpstream(Seq<char>),
    Push,
    CheckUpstream,
    AskForce,
    ForcePush,
    Finish(PushOutcome),
}

impl View for PushEvent {
    type V = PushEventView;

    open spec fn view(&self) -> PushEventView {
        match self {
            PushEvent::Begin => PushEventView::Begin,
            PushEvent::BranchOutput(s) => PushEventView::BranchOutput(s@),
            PushEvent::RenameAnswer(b) => PushEventView::RenameAnswer(*b),
            PushEvent::Renamed => PushEventView::Renamed,
            PushEvent::RemotesListed(b) => PushEventView::RemotesListed(*b),
            PushEvent::UrlEntered(s) => PushEventView::UrlEntered(s@),
            PushEvent::RemoteAdded => PushEventView::RemoteAdded,
            PushEvent::UpstreamPushed => PushEventView::UpstreamPushed,
            PushEvent::Pushed(b) => PushEventView::Pushed(*b),
            PushEvent::UpstreamChecked(b) => PushEventView::UpstreamChecked(*b),
            PushEvent::ForceAnswer(b) => PushEventView::ForceAnswer(*b),
            PushEvent::ForcePushed(b) => PushEventView::ForcePushed(*b),
        }
    }
}

impl View for PushAction {
    type V = PushActionView;

    open spec fn view(&self) -> PushActionView {
        match self {
            PushAction::ReadBranch => PushActionView::ReadBranch,
            PushAction::AskRename => PushActionView::AskRename,
            PushAction::RenameBranch => PushActionView::RenameBranch,
            PushAction::ListRemotes => PushActionView::ListRemotes,
            PushAction::AskRemoteUrl => PushActionView::AskRemoteUrl,
            PushAction::AddRemote(s) => PushActionView::AddRemote(s@),
            PushAction::PushUpstream(s) => PushActionView::PushUpstream(s@),
            PushAction::Push => PushActionView::Push,
            PushAction::CheckUpstream => PushActionView::CheckUpstream,
            PushAction::AskForce => PushActionView::AskForce,
            PushAction::ForcePush => PushActionView::ForcePush,
            PushAction::Finish(o) => PushActionView::Finish(*o),
        }
    }
}

/// A push in progress: where it stands and the branch it pushes.
pub struct PushFlow {
    pub stage: PushStage,
    pub branch: String,
}

/// A push with its branch as characters.
pub struct PushFlowView {
    pub stage: PushStage,
    pub branch: Seq<char>,
}

impl View for PushFlow {
    type V = PushFlowView;

    open spec fn view(&self) -> PushFlowView {
        PushFlowView { stage: self.stage, branch: self.branch@ }
    }
}

/// The answer that each stage waits for.
pub open spec fn push_accepts(stage: PushStage, e: PushEventView) -> bool {
    match stage {
        PushStage::Start => e is Begin,
        PushStage::Branch => e is BranchOutput,
        PushStage::RenameQuestion => e is RenameAnswer,
        PushStage::Rename => e is Renamed,
        PushStage::Remotes => e is RemotesListed,
        PushStage::Url => e is UrlEntered,
        PushStage::AddRemote => e is RemoteAdded,
        PushStage::Upstream => e is UpstreamPushed,
        PushStage::Push => e is Pushed,
        PushStage::UpstreamCheck => e is UpstreamChecked,
        PushStage::ForceQuestion => e is ForceAnswer,
        PushStage::Force => e is ForcePushed,
        PushStage::Done => false,
    }
}

/// The push's decisions.
pub open spec fn push_next(f: PushFlowView, e: PushEventView) -> (PushFlowView, PushActionView) {
    let to = |s: PushStage| PushFlowView { stage: s, branch: f.branch };
    match (f.stage, e) {
        (PushStage::Start, _) => (to(PushStage::Branch), PushActionView::ReadBranch),
        (PushStage::Branch, PushEventView::BranchOutput(out)) => if trim(out) == master_name() {
            (PushFlowView { stage: PushStage::RenameQuestion, branch: trim(out) }, PushActionView::AskRename)
        } else {
            (PushFlowView { stage: PushStage::Remotes, branch: trim(out) }, PushActionView::ListRemotes)
        },
        (PushStage::RenameQuestion, PushEventView::RenameAnswer(yes)) => if yes {
            (to(PushStage::Rename), PushActionView::RenameBranch)
        } else {
            (to(PushStage::Remotes), PushActionView::ListRemotes)
        },
        (PushStage::Rename, _) => (
            PushFlowView { stage: PushStage::Remotes, branch: "main"@ },
            PushActionView::ListRemotes,
        ),
        (PushStage::Remotes, PushEventView::RemotesListed(any)) => if any {
            (to(PushStage::Push), PushActionView::Push)
        } else {
            (to(PushStage::Url), PushActionView::AskRemoteUrl)
        },
        (PushStage::Url, PushEventView::UrlEntered(url)) => (
            to(PushStage::AddRemote),
            PushActionView::AddRemote(url),
        ),
        (PushStage::AddRemote, _) => (
            to(PushStage::Upstream),
            PushActionView::PushUpstream(f.branch),
        ),
        (PushStage::Upstream, _) => (
            to(PushStage::Done),
            PushActionView::Finish(PushOutcome::UpstreamSet),
        ),
        (PushStage::Push, PushEventView::Pushed(ok)) => if ok {
            (to(PushStage::Done), PushActionView::Finish(PushOutcome::Pushed))
        } else {
            (to(PushStage::UpstreamCheck), PushActionView::CheckUpstream)
        },
        (PushStage::UpstreamCheck, PushEventView::UpstreamChecked(has)) => if has {
            (to(PushStage::ForceQuestion), PushActionView::AskForce)
        } else {
            (to(PushStage::Upstream), PushActionView::PushUpstream(f.branch))
        },
        (PushStage::ForceQuestion, PushEventView::ForceAnswer(yes)) => if yes {
            (to(PushStage::Force), PushActionView::ForcePush)
        } else {
            (to(PushStage::Done), PushActionView::Finish(PushOutcome::Aborted))
        },
        (PushStage::Force, PushEventView::ForcePushed(ok)) => (
            to(PushStage::Done),
            PushActionView::Finish(
                if ok {
                    PushOutcome::ForcePushed
                } else {
                    PushOutcome::ForceFailed
                },
            ),
        ),
        _ => (f, PushActionView::Finish(PushOutcome::Aborted)),
    }
}

fn copy_string(s: &String) -> (r: String)
    ensures
        r@ == s@,
{
    string_of(chars_of(s.as_str()).as_slice())
}

impl PushFlow {
    /// A push that has not started.
    pub fn new() -> (r: PushFlow)
        ensures
            r.stage == PushStage::Start,
            r.branch@ == Seq::<char>::empty(),
    {
        PushFlow { stage: PushStage::Start, branch: String::new() }
    }

    /// Whether the push has finished.
    pub fn is_done(&self) -> (r: bool)
        ensures
            r == (self.stage == PushStage::Done),
    {
        self.stage == PushStage::Done
    }

    /// Whether this flow waits for `e`.
    pub fn accepts(&self, e: &PushEvent) -> (r: bool)
        ensures
            r == push_accepts(self.stage, e@),
    {
        match (self.stage, e) {
            (PushStage::Start, PushEvent::Begin) => true,
            (PushStage::Branch, PushEvent::BranchOutput(_)) => true,
            (PushStage::RenameQuestion, PushEvent::RenameAnswer(_)) => true,
            (PushStage::Rename, PushEvent::Renamed) => true,
            (PushStage::Remotes, PushEvent::RemotesListed(_)) => true,
            (PushStage::Url, PushEvent::UrlEntered(_)) => true,
            (PushStage::AddRemote, PushEvent::RemoteAdded) => true,
            (PushStage::Upstream, PushEvent::UpstreamPushed) => true,
            (PushStage::Push, PushEvent::Pushed(_)) => true,
            (PushStage::UpstreamCheck, PushEvent::UpstreamChecked(_)) => true,
            (PushStage::ForceQuestion, PushEvent::ForceAnswer(_)) => true,
            (PushStage::Force, PushEvent::ForcePushed(_)) => true,
            _ => false,
        }
    }

    /// Takes the answer `e` and says what to do next. A force push, and the renaming of
    /// `master`, are only ever asked for right after the user agreed to them.
    pub fn step(self, e: PushEvent) -> (r: (PushFlow, PushAction))
        requires
            push_accepts(self.stage, e@),
        ensures
            (r.0@, r.1@) == push_next(self@, e@),
            r.1@ is ForcePush ==> e@ == PushEventView::ForceAnswer(true),
            r.1@ is RenameBranch ==> e@ == PushEventView::RenameAnswer(true),
            r.0.branch@ == match e@ {
                PushEventView::BranchOutput(out) => trim(out),
                PushEventView::Renamed => "main"@,
                _ => self.branch@,
            },
            r.1@ is PushUpstream ==> r.1@->PushUpstream_0 == self.branch@,
    {
        let branch = self.branch;
        match (self.stage, e) {
            (PushStage::Start, _) => (PushFlow { stage: PushStage::Branch, branch }, PushAction::ReadBranch),
            (PushStage::Branch, PushEvent::BranchOutput(out)) => {
                let t = trim_chars(chars_of(out.as_str()).as_slice());
                let m: Vec<char> = vec!['m', 'a', 's', 't', 'e', 'r'];
                assert(m@ == master_name());
                let b = string_of(t.as_slice());
                if chars_eq(t.as_slice(), m.as_slice()) {
                    (PushFlow { stage: PushStage::RenameQuestion, branch: b }, PushAction::AskRename)
                } else {
                    (PushFlow { stage: PushStage::Remotes, branch: b }, PushAction::ListRemotes)
                }
            },
            (PushStage::RenameQuestion, PushEvent::RenameAnswer(yes)) => {
                if yes {
                    (PushFlow { stage: PushStage::Rename, branch }, PushAction::RenameBranch)
                } else {
                    (PushFlow { stage: PushStage::Remotes, branch }, PushAction::ListRemotes)
                }
            },
            (PushStage::Rename, _) => (
                PushFlow { stage: PushStage::Remotes, branch: String::from_str("main") },
                PushAction::ListRemotes,
            ),
            (PushStage::Remotes, PushEvent::RemotesListed(any)) => {
                if any {
                    (PushFlow { stage: PushStage::Push, branch }, PushAction::Push)
                } else {
                    (PushFlow { stage: PushStage::Url, branch }, PushAction::AskRemoteUrl)
                }
            },
            (PushStage::Url, PushEvent::UrlEntered(url)) => (
                PushFlow { stage: PushStage::AddRemote, branch },
                PushAction::AddRemote(url),
            ),
            (PushStage::AddRemote, _) => {
                let b = copy_string(&branch);
                (PushFlow { stage: PushStage::Upstream, branch }, PushAction::PushUpstream(b))
            },
            (PushStage::Upstream, _) => (
                PushFlow { stage: PushStage::Done, branch },
                PushAction::Finish(PushOutcome::UpstreamSet),
            ),
            (PushStage::Push, PushEvent::Pushed(ok)) => {
                if ok {
                    (PushFlow { stage: PushStage::Done, branch }, PushAction::Finish(PushOutcome::Pushed))
                } else {
                    (PushFlow { stage: PushStage::UpstreamCheck, branch }, PushAction::CheckUpstream)
                }
            },
            (PushStage::UpstreamCheck, PushEvent::UpstreamChecked(has)) => {
                if has {
                    (PushFlow { stage: PushStage::ForceQuestion, branch }, PushAction::AskForce)
                } else {
                    let b = copy_string(&branch);
                    (PushFlow { stage: PushStage::Upstream, branch }, PushAction::PushUpstream(b))
                }
            },
            (PushStage::ForceQuestion, PushEvent::ForceAnswer(yes)) => {
                if yes {
                    (PushFlow { stage: PushStage::Force, branch }, PushAction::ForcePush)
                } else {
                    (PushFlow { stage: PushStage::Done, branch }, PushAction::Finish(PushOutcome::Aborted))
                }
            },
            (PushStage::Force, PushEvent::ForcePushed(ok)) => {
                let o = if ok {
                    PushOutcome::ForcePushed
                } else {
                    PushOutcome::ForceFailed
                };
                (PushFlow { stage: PushStage::Done, branch }, PushAction::Finish(o))
            },
            _ => (PushFlow { stage: self.stage, branch }, PushAction::Finish(PushOutcome::Aborted)),
        }
    }
}

/// The arguments that add the remote: `remote add origin <url>`.
pub fn add_remote_args(url: &str) -> (r: Vec<String>)
    ensures
        string_views(r@) == seq!["remote"@, "add"@, "origin"@, url@],
{
    let mut r: Vec<String> = Vec::new();
    r.push(String::from_str("remote"));
    r.push(String::from_str("add"));
    r.push(String::from_str("origin"));
    r.push(string_of(chars_of(url).as_slice()));
    assert(string_views(r@) =~= seq!["remote"@, "add"@, "origin"@, url@]);
    r
}

/// The arguments that push `branch` and set its upstream: `push -u origin <branch>`.
pub fn push_upstream_args(branch: &str) -> (r: Vec<String>)
    ensures
        string_views(r@) == seq!["push"@, "-u"@, "origin"@, branch@],
{
    let mut r: Vec<String> = Vec::new();
    r.push(String::from_str("push"));
    r.push(String::from_str("-u"));
    r.push(String::from_str("origin"));
    r.push(string_of(chars_of(branch).as_slice()));
    assert(string_views(r@) =~= seq!["push"@, "-u"@, "origin"@, branch@]);
    r
}

/// The branch a push carries, and pushes with `-u`, is the trimmed output of
/// `git branch --show-current`; it becomes `main` only when the rename, agreed to, has run,
/// and every other answer (a declined rename among them) leaves it as it was.
pub proof fn lemma_push_branch(f: PushFlowView, e: PushEventView)
    requires
        push_accepts(f.stage, e),
    ensures
        push_next(f, e).0.branch == match e {
            PushEventView::BranchOutput(out) => trim(out),
            PushEventView::Renamed => "main"@,
            _ => f.branch,
        },
        e == PushEventView::RenameAnswer(false) ==> push_next(f, e).0.branch == f.branch
            && push_next(f, e).1 == PushActionView::ListRemotes,
        e == PushEventView::Renamed ==> f.stage == PushStage::Rename,
        push_next(f, e).1 is PushUpstream ==> push_next(f, e).1->PushUpstream_0 == f.branch,
{
}

/// The rename to `main` runs only after the user agreed to it.
pub proof fn lemma_push_rename_needs_consent(f: PushFlowView, e: PushEventView)
    requires
        push_accepts(f.stage, e),
        push_next(f, e).1 == PushActionView::RenameBranch,
    ensures
        e == PushEventView::RenameAnswer(true),
        f.stage == PushStage::RenameQuestion,
{
}

/// What each answer leads to: `master` asks before the rename and any other branch goes
/// to the remotes; without a remote the URL is asked, the remote added and the branch
/// pushed with `-u`; a push that succeeds ends as pushed; one that fails pushes with `-u`
/// when no upstream is set and otherwise asks before forcing; a declined force ends as
/// aborted, and a forced push ends as forced or failed as it went.
pub proof fn lemma_push_answers(f: PushFlowView, e: PushEventView)
    requires
        push_accepts(f.stage, e),
    ensures
        ({
            let (g, a) = push_next(f, e);
            &&& e == PushEventView::Begin ==> a == PushActionView::ReadBranch
            &&& (e is BranchOutput && trim(e->BranchOutput_0) == master_name()) ==> a
                == PushActionView::AskRename
            &&& (e is BranchOutput && trim(e->BranchOutput_0) != master_name()) ==> a
                == PushActionView::ListRemotes
            &&& e == PushEventView::RenameAnswer(true) ==> a == PushActionView::RenameBranch
            &&& e == PushEventView::RenameAnswer(false) ==> a == PushActionView::ListRemotes
            &&& e == PushEventView::Renamed ==> a == PushActionView::ListRemotes
            &&& e == PushEventView::RemotesListed(true) ==> a == PushActionView::Push
            &&& e == PushEventView::RemotesListed(false) ==> a == PushActionView::AskRemoteUrl
            &&& e is UrlEntered ==> a == PushActionView::AddRemote(e->UrlEntered_0)
            &&& e == PushEventView::RemoteAdded ==> a == PushActionView::PushUpstream(f.branch)
            &&& e == PushEventView::UpstreamPushed ==> a == PushActionView::Finish(PushOutcome::UpstreamSet)
            &&& e == PushEventView::Pushed(true) ==> a == PushActionView::Finish(PushOutcome::Pushed)
            &&& e == PushEventView::Pushed(false) ==> a == PushActionView::CheckUpstream
            &&& e == PushEventView::UpstreamChecked(false) ==> a == PushActionView::PushUpstream(f.branch)
            &&& e == PushEventView::UpstreamChecked(true) ==> a == PushActionView::AskForce
            &&& e == PushEventView::ForceAnswer(true) ==> a == PushActionView::ForcePush
            &&& e == PushEventView::ForceAnswer(false) ==> a == PushActionView::Finish(PushOutcome::Aborted)
            &&& e == PushEventView::ForcePushed(true) ==> a == PushActionView::Finish(PushOutcome::ForcePushed)
            &&& e == PushEventView::ForcePushed(false) ==> a == PushActionView::Finish(PushOutcome::ForceFailed)
            &&& a is Finish <==> g.stage == PushStage::Done
        }),
{
}

} // verus!
