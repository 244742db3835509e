//! `wally commit`: conventional commit messages.
use vstd::prelude::*;
use crate::text::{
    chars_of, concat, pad_right, pad_right_chars, string_of, string_views, trim, trim_chars,
};

verus! {

/// A kind of change and what it means.
pub struct CommitType {
    pub code: String,
    pub desc: String,
}

/// The kinds of change, in menu order.
pub open spec fn commit_type_table() -> Seq<(Seq<char>, Seq<char>)> {
    seq![
        ("feat"@, "A new feature"@),
        ("fix"@, "A bug fix"@),
        ("docs"@, "Documentation only changes"@),
        ("style"@, "Changes that do not affect the meaning of the code"@),
        ("refactor"@, "Code change that neither fixes a bug nor adds feature"@),
        ("perf"@, "A code change that improves performance"@),
        ("test"@, "Adding missing tests or correcting existing tests"@),
        ("build"@, "Changes that affect the build system"@),
        ("ci"@, "Changes to our CI configuration files"@),
        ("chore"@, "Other changes that don't modify src or test files"@),
        ("revert"@, "Reverts a previous commit"@),
    ]
}

/// Views of commit types.
pub open spec fn commit_type_views(v: Seq<CommitType>) -> Seq<(Seq<char>, Seq<char>)> {
    v.map_values(|t: CommitType| (t.code@, t.desc@))
}

fn commit_type(code: &str, desc: &str) -> (r: CommitType)
    ensures
        r.code@ == code@,
        r.desc@ == desc@,
{
    CommitType { code: String::from_str(code), desc: String::from_str(desc) }
}

/// The kinds of change offered for a commit.
pub fn commit_types() -> (r: Vec<CommitType>)
    ensures
        commit_type_views(r@) == commit_type_table(),
{
    let mut r: Vec<CommitType> = Vec::new();
    r.push(commit_type("feat", "A new feature"));
    r.push(commit_type("fix", "A bug fix"));
    r.push(commit_type("docs", "Documentation only changes"));
    r.push(commit_type("style", "Changes that do not affect the meaning of the code"));
    r.push(commit_type("refactor", "Code change that neither fixes a bug nor adds feature"));
    r.push(commit_type("perf", "A code change that improves performance"));
    r.push(commit_type("test", "Adding missing tests or correcting existing tests"));
    r.push(commit_type("build", "Changes that affect the build system"));
    r.push(commit_type("ci", "Changes to our CI configuration files"));
    r.push(commit_type("chore", "Other changes that don't modify src or test files"));
    r.push(commit_type("revert", "Reverts a previous commit"));
    assert(commit_type_views(r@) =~= commit_type_table());
    r
}

/// The menu entry of a kind of change: its code padded to 10 characters, a space, and what
/// it means.
pub open spec fn commit_item(code: Seq<char>, desc: Seq<char>) -> Seq<char> {
    pad_right(code, 10) + seq![' '] + desc
}

/// The menu entries of the kinds of change, in order.
pub fn commit_type_items(types: &Vec<CommitType>) -> (r: Vec<String>)
    ensures
        r@.len() == types@.len(),
        forall|i: int|
            0 <= i < r@.len() ==> (#[trigger] r@[i])@ == commit_item(types@[i].code@, types@[i].desc@),
{
    let mut r: Vec<String> = Vec::new();
    let n = types.len();
    for i in 0..n
        invariant
            n == types@.len(),
            r@.len() == i,
            forall|k: int|
                0 <= k < i ==> (#[trigger] r@[k])@ == commit_item(types@[k].code@, types@[k].desc@),
    {
        let code = chars_of(types[i].code.as_str());
        let padded = pad_right_chars(code.as_slice(), 10);
        let space: Vec<char> = vec![' '];
        let a = concat(padded.as_slice(), space.as_slice());
        let b = concat(a.as_slice(), chars_of(types[i].desc.as_str()).as_slice());
        r.push(string_of(b.as_slice()));
    }
    r
}

/// Whether `git diff --cached --name-only` lists anything to commit.
pub fn has_staged_changes(staged_output: &str) -> (r: bool)
    ensures
        r == (trim(staged_output@).len() > 0),
{
    trim_chars(chars_of(staged_output).as_slice()).len() > 0
}

/// The conventional commit message: `<type>: <subject>`, or `<type>(<scope>): <subject>`
/// when the scope is not blank, followed by an empty line and the body when the body is not
/// blank.
pub open spec fn commit_message(kind: Seq<char>, scope: Seq<char>, subject: Seq<char>, body: Seq<char>) -> Seq<char> {
    let head = if trim(scope).len() == 0 {
        kind + ": "@ + subject
    } else {
        kind + "("@ + scope + "): "@ + subject
    };
    if trim(body).len() == 0 {
        head
    } else {
        head + "\n\n"@ + body
    }
}

/// Builds the commit message from the answers to the prompts.
pub fn build_commit_message(kind: &str, scope: &str, subject: &str, body: &str) -> (r: String)
    ensures
        r@ == commit_message(kind@, scope@, subject@, body@),
{
    let k = chars_of(kind);
    let sc = chars_of(scope);
    let su = chars_of(subject);
    let b = chars_of(body);
    let head = if trim_chars(sc.as_slice()).len() == 0 {
        concat(concat(k.as_slice(), chars_of(": ").as_slice()).as_slice(), su.as_slice())
    } else {
        let open = concat(k.as_slice(), chars_of("(").as_slice());
        let with_scope = concat(open.as_slice(), sc.as_slice());
        let close = concat(with_scope.as_slice(), chars_of("): ").as_slice());
        concat(close.as_slice(), su.as_slice())
    };
    if trim_chars(b.as_slice()).len() == 0 {
        string_of(head.as_slice())
    } else {
        let sep = concat(head.as_slice(), chars_of("\n\n").as_slice());
        string_of(concat(sep.as_slice(), b.as_slice()).as_slice())
    }
}

/// A commit message starts with its type; with a blank scope `: ` and the subject follow,
/// else the scope in parentheses, `: ` and the subject; a body that is not blank follows an
/// empty line, and a blank body is left out.
pub proof fn lemma_commit_message_shape(kind: Seq<char>, scope: Seq<char>, subject: Seq<char>, body: Seq<char>)
    ensures
        ({
            let head = if trim(scope).len() == 0 {
                kind + ": "@ + subject
            } else {
                kind + "("@ + scope + "): "@ + subject
            };
            &&& commit_message(kind, scope, subject, body).take(kind.len() as int) == kind
            &&& trim(body).len() == 0 ==> commit_message(kind, scope, subject, body) == head
            &&& trim(body).len() > 0 ==> commit_message(kind, scope, subject, body) == head + "\n\n"@
                + body
        }),
{
    let m = commit_message(kind, scope, subject, body);
    if trim(scope).len() == 0 {
        if trim(body).len() == 0 {
            assert((kind + ": "@ + subject).take(kind.len() as int) =~= kind);
        } else {
            assert((kind + ": "@ + subject + "\n\n"@ + body).take(kind.len() as int) =~= kind);
        }
    } else {
        if trim(body).len() == 0 {
            assert((kind + "("@ + scope + "): "@ + subject).take(kind.len() as int) =~= kind);
        } else {
            assert((kind + "("@ + scope + "): "@ + subject + "\n\n"@ + body).take(kind.len() as int)
                =~= kind);
        }
    }
}

} // verus!
