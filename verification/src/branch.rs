//! `wally branch`: switching, creating and deleting branches.
use vstd::prelude::*;
use crate::text::{
    chars_eq, chars_of, concat, lines, lines_of, string_of, string_views, trim, trim_chars, views,
};

verus! {

/// What the branch menu offers, in menu order.
#[derive(PartialEq, Eq, Structural, Clone, Copy, Debug)]
pub enum BranchAction {
    Switch,
    Create,
    /// Turn the commits of the current branch since its base branch into one staged change.
    Squash,
    Delete,
}

/// The entries of the branch menu, in menu order.
pub fn branch_action_labels() -> (r: Vec<String>)
    ensures
        string_views(r@) == seq![
            "Switch Branch"@,
            "Create New Branch"@,
            "Squash Branch"@,
            "Delete Branch"@,
        ],
{
    let mut r: Vec<String> = Vec::new();
    r.push(String::from_str("Switch Branch"));
    r.push(String::from_str("Create New Branch"));
    r.push(String::from_str("Squash Branch"));
    r.push(String::from_str("Delete Branch"));
    assert(string_views(r@) =~= seq![
        "Switch Branch"@,
        "Create New Branch"@,
        "Squash Branch"@,
        "Delete Branch"@,
    ]);
    r
}

/// The action at position `selection` of the branch menu; nothing past its four entries.
pub fn branch_action_for(selection: usize) -> (r: Option<BranchAction>)
    ensures
        r == if selection == 0 {
            Some(BranchAction::Switch)
        } else if selection == 1 {
            Some(BranchAction::Create)
        } else if selection == 2 {
            Some(BranchAction::Squash)
        } else if selection == 3 {
            Some(BranchAction::Delete)
        } else {
            None
        },
{
    if selection == 0 {
        Some(BranchAction::Switch)
    } else if selection == 1 {
        Some(BranchAction::Create)
    } else if selection == 2 {
        Some(BranchAction::Squash)
    } else if selection == 3 {
        Some(BranchAction::Delete)
    } else {
        None
    }
}

/// The local branches listed by `git branch --format=%(refname:short)`: each line trimmed.
pub open spec fn branch_list(output: Seq<char>) -> Seq<Seq<char>> {
    lines(output).map_values(|l: Seq<char>| trim(l))
}

/// The local branches, from the output of `git branch --format=%(refname:short)`.
pub fn get_branches(output: &str) -> (r: Vec<String>)
    ensures
        string_views(r@) == branch_list(output@),
{
    let ls = lines_of(chars_of(output).as_slice());
    let mut r: Vec<String> = Vec::new();
    let n = ls.len();
    let ghost all = lines(output@);
    for i in 0..n
        invariant
            n == ls@.len() == all.len(),
            views(ls@) == all,
            string_views(r@) == all.take(i as int).map_values(|l: Seq<char>| trim(l)),
    {
        let t = trim_chars(ls[i].as_slice());
        let ghost before = r@;
        r.push(string_of(t.as_slice()));
        assert(all[i as int] == ls@[i as int]@);
        assert(string_views(r@) == string_views(before).push(t@));
        assert(all.take(i + 1).map_values(|l: Seq<char>| trim(l)) == all.take(i as int).map_values(
            |l: Seq<char>| trim(l),
        ).push(trim(all[i as int])));
    }
    assert(all.take(n as int) == all);
    r
}

/// The current branch, from the output of `git branch --show-current`: trimmed.
pub fn get_current_branch(output: &str) -> (r: String)
    ensures
        r@ == trim(output@),
{
    string_of(trim_chars(chars_of(output).as_slice()).as_slice())
}

/// The entry the switch menu starts on: the current branch, or the first entry.
pub fn default_branch_index(branches: &Vec<String>, current: &str) -> (r: usize)
    ensures
        r < branches@.len() || (r == 0 && branches@.len() == 0),
        (exists|i: int| 0 <= i < branches@.len() && branches@[i]@ == current@) ==> branches@[r as int]@
            == current@ && forall|j: int| 0 <= j < r ==> branches@[j]@ != current@,
        !(exists|i: int| 0 <= i < branches@.len() && branches@[i]@ == current@) ==> r == 0,
{
    let c = chars_of(current);
    let n = branches.len();
    for i in 0..n
        invariant
            n == branches@.len(),
            c@ == current@,
            forall|j: int| 0 <= j < i ==> branches@[j]@ != current@,
    {
        if chars_eq(chars_of(branches[i].as_str()).as_slice(), c.as_slice()) {
            return i;
        }
    }
    0
}

/// Whether `target` is the branch already checked out.
pub fn is_current_branch(target: &str, current: &str) -> (r: bool)
    ensures
        r == (target@ == current@),
{
    chars_eq(chars_of(target).as_slice(), chars_of(current).as_slice())
}

/// The kinds of branch offered, in menu order.
pub open spec fn branch_type_table() -> Seq<Seq<char>> {
    seq!["feat"@, "fix"@, "chore"@, "docs"@, "refactor"@, "style"@, "test"@, "other"@]
}

/// The kinds of branch offered for a new branch.
pub fn branch_types() -> (r: Vec<String>)
    ensures
        string_views(r@) == branch_type_table(),
{
    let mut r: Vec<String> = Vec::new();
    r.push(String::from_str("feat"));
    r.push(String::from_str("fix"));
    r.push(String::from_str("chore"));
    r.push(String::from_str("docs"));
    r.push(String::from_str("refactor"));
    r.push(String::from_str("style"));
    r.push(String::from_str("test"));
    r.push(String::from_str("other"));
    assert(string_views(r@) =~= branch_type_table());
    r
}

/// The name of a new branch: `<prefix>/<name>`, or just the name for the kind `other`.
pub open spec fn full_name(prefix: Seq<char>, name: Seq<char>) -> Seq<char> {
    if prefix == "other"@ {
        name
    } else {
        prefix + "/"@ + name
    }
}

/// The name of a new branch of kind `prefix`.
pub fn full_branch_name(prefix: &str, name: &str) -> (r: String)
    ensures
        r@ == full_name(prefix@, name@),
        prefix@ != "other"@ ==> r@ == prefix@ + "/"@ + name@,
        prefix@ == "other"@ ==> r@ == name@,
{
    let p = chars_of(prefix);
    let other = chars_of("other");
    if chars_eq(p.as_slice(), other.as_slice()) {
        string_of(chars_of(name).as_slice())
    } else {
        let a = concat(p.as_slice(), chars_of("/").as_slice());
        string_of(concat(a.as_slice(), chars_of(name).as_slice()).as_slice())
    }
}

/// A new branch is named `<kind>/<name>` for every kind but exactly `other`, which gives
/// the bare name; so each kind of the menu but the last keeps its prefix, and two names of
/// one kind are different branches.
pub proof fn lemma_full_name(prefix: Seq<char>, name: Seq<char>, other_name: Seq<char>)
    ensures
        prefix != "other"@ ==> full_name(prefix, name) == prefix + "/"@ + name,
        prefix != "other"@ ==> full_name(prefix, name).take(prefix.len() as int + 1) == prefix + "/"@,
        full_name("other"@, name) == name,
        name != other_name ==> full_name(prefix, name) != full_name(prefix, other_name),
        forall|i: int|
            0 <= i < branch_type_table().len() - 1 ==> #[trigger] full_name(branch_type_table()[i], name)
                == branch_type_table()[i] + "/"@ + name,
{
    reveal_strlit("/");
    reveal_strlit("other");
    reveal_strlit("feat");
    reveal_strlit("fix");
    reveal_strlit("chore");
    reveal_strlit("docs");
    reveal_strlit("refactor");
    reveal_strlit("style");
    reveal_strlit("test");
    let t = branch_type_table();
    assert forall|i: int| 0 <= i < t.len() - 1 implies t[i] != "other"@ by {
        if t[i] == "other"@ {
            assert(t[i].len() == 5);
            assert(t[i][0] == 'o');
        }
    }
    if prefix != "other"@ {
        assert((prefix + "/"@ + name).take(prefix.len() as int + 1) =~= prefix + "/"@);
    }
    if name != other_name && prefix != "other"@ {
        let a = prefix + "/"@ + name;
        let b = prefix + "/"@ + other_name;
        assert(a.skip(prefix.len() as int + 1) =~= name);
        assert(b.skip(prefix.len() as int + 1) =~= other_name);
    }
}

/// The branches that may be deleted: all but the current one, in order.
pub open spec fn deletable(branches: Seq<Seq<char>>, current: Seq<char>) -> Seq<Seq<char>>
    decreases branches.len(),
{
    if branches.len() == 0 {
        seq![]
    } else if branches.last() == current {
        deletable(branches.drop_last(), current)
    } else {
        deletable(branches.drop_last(), current).push(branches.last())
    }
}

/// The branches offered for deletion.
pub fn deletable_branches(branches: &Vec<String>, current: &str) -> (r: Vec<String>)
    ensures
        string_views(r@) == deletable(string_views(branches@), current@),
{
    let c = chars_of(current);
    let mut r: Vec<String> = Vec::new();
    let n = branches.len();
    let ghost all = string_views(branches@);
    assert(all.take(0) == Seq::<Seq<char>>::empty());
    for i in 0..n
        invariant
            n == branches@.len() == all.len(),
            all == string_views(branches@),
            c@ == current@,
            string_views(r@) == deletable(all.take(i as int), current@),
    {
        assert(all.take(i + 1).drop_last() == all.take(i as int));
        assert(all.take(i + 1).last() == branches@[i as int]@);
        let b = chars_of(branches[i].as_str());
        if !chars_eq(b.as_slice(), c.as_slice()) {
            let ghost before = r@;
            r.push(string_of(b.as_slice()));
            assert(string_views(r@) == string_views(before).push(b@));
        }
    }
    assert(all.take(n as int) == all);
    r
}

/// The current branch is never offered for deletion, and every other branch is.
pub proof fn lemma_deletable(branches: Seq<Seq<char>>, current: Seq<char>)
    ensures
        !deletable(branches, current).contains(current),
        forall|b: Seq<char>|
            branches.contains(b) && b != current ==> #[trigger] deletable(branches, current).contains(b),
    decreases branches.len(),
{
    if branches.len() > 0 {
        let pre = branches.drop_last();
        lemma_deletable(pre, current);
        let d = deletable(pre, current);
        if branches.last() != current {
            let e = d.push(branches.last());
            assert(e[d.len() as int] == branches.last());
            if e.contains(current) {
                let k = choose|k: int| 0 <= k < e.len() && e[k] == current;
                assert(d[k] == current);
            }
        }
        assert forall|b: Seq<char>|
            branches.contains(b) && b != current implies #[trigger] deletable(branches, current).contains(b) by {
            if b != branches.last() {
                let k = choose|k: int| 0 <= k < branches.len() && branches[k] == b;
                assert(pre[k] == b);
                assert(pre.contains(b));
                assert(deletable(pre, current).contains(b));
                let j = choose|j: int| 0 <= j < d.len() && d[j] == b;
                if branches.last() != current {
                    assert(d.push(branches.last())[j] == b);
                }
            } else {
                assert(d.push(branches.last())[d.len() as int] == b);
            }
        }
    }
}

// ---------------------------------------------------------------------------
// Squashing
// ---------------------------------------------------------------------------
/// Whether `name` is one of `branches`.
fn has_branch(branches: &Vec<String>, name: &str) -> (r: bool)
    ensures
        r == string_views(branches@).contains(name@),
{
    let c = chars_of(name);
    let n = branches.len();
    for i in 0..n
        invariant
            n == branches@.len(),
            c@ == name@,
            forall|j: int| 0 <= j < i ==> branches@[j]@ != name@,
    {
        if chars_eq(chars_of(branches[i].as_str()).as_slice(), c.as_slice()) {
            assert(string_views(branches@)[i as int] == name@);
            return true;
        }
    }
    proof {
        if string_views(branches@).contains(name@) {
            let k = choose|k: int|
                0 <= k < string_views(branches@).len() && string_views(branches@)[k] == name@;
            assert(branches@[k]@ == name@);
        }
    }
    false
}

/// The base branch a squash is taken against: `main` when it is listed and is not the
/// current branch, else `master` on the same terms, else none.
pub open spec fn squash_base_of(branches: Seq<Seq<char>>, current: Seq<char>) -> Option<Seq<char>> {
    if current != "main"@ && branches.contains("main"@) {
        Some("main"@)
    } else if current != "master"@ && branches.contains("master"@) {
        Some("master"@)
    } else {
        None
    }
}

/// The base branch to squash the current branch against.
pub fn squash_base(branches: &Vec<String>, current: &str) -> (r: Option<String>)
    ensures
        match r {
            Some(b) => squash_base_of(string_views(branches@), current@) == Some(b@),
            None => squash_base_of(string_views(branches@), current@) is None,
        },
{
    let cur = chars_of(current);
    let main = String::from_str("main");
    let master = String::from_str("master");
    if !chars_eq(cur.as_slice(), chars_of(main.as_str()).as_slice()) && has_branch(branches, main.as_str()) {
        Some(main)
    } else if !chars_eq(cur.as_slice(), chars_of(master.as_str()).as_slice()) && has_branch(
        branches,
        master.as_str(),
    ) {
        Some(master)
    } else {
        None
    }
}

/// The arguments that find where the current branch left `base`: `merge-base <base> HEAD`.
pub fn merge_base_args(base: &str) -> (r: Vec<String>)
    ensures
        string_views(r@) == seq!["merge-base"@, base@, "HEAD"@],
{
    let mut r: Vec<String> = Vec::new();
    r.push(String::from_str("merge-base"));
    r.push(string_of(chars_of(base).as_slice()));
    r.push(String::from_str("HEAD"));
    assert(string_views(r@) =~= seq!["merge-base"@, base@, "HEAD"@]);
    r
}

/// The commit to squash onto, from the output of `git merge-base`: the trimmed output, or
/// none when it is blank.
pub fn squash_point(merge_base_output: &str) -> (r: Option<String>)
    ensures
        match r {
            Some(h) => trim(merge_base_output@).len() > 0 && h@ == trim(merge_base_output@),
            None => trim(merge_base_output@).len() == 0,
        },
{
    let t = trim_chars(chars_of(merge_base_output).as_slice());
    if t.len() == 0 {
        None
    } else {
        Some(string_of(t.as_slice()))
    }
}

/// The arguments that turn the commits after `commit` into one staged change:
/// `reset --soft <commit>`.
pub fn soft_reset_args(commit: &str) -> (r: Vec<String>)
    ensures
        string_views(r@) == seq!["reset"@, "--soft"@, commit@],
{
    let mut r: Vec<String> = Vec::new();
    r.push(String::from_str("reset"));
    r.push(String::from_str("--soft"));
    r.push(string_of(chars_of(commit).as_slice()));
    assert(string_views(r@) =~= seq!["reset"@, "--soft"@, commit@]);
    r
}

// ---------------------------------------------------------------------------
// Deleting
// ---------------------------------------------------------------------------
/// The arguments that delete `branch` locally: `branch -D <branch>`.
pub fn local_delete_args(branch: &str) -> (r: Vec<String>)
    ensures
        string_views(r@) == seq!["branch"@, "-D"@, branch@],
{
    let mut r: Vec<String> = Vec::new();
    r.push(String::from_str("branch"));
    r.push(String::from_str("-D"));
    r.push(string_of(chars_of(branch).as_slice()));
    assert(string_views(r@) =~= seq!["branch"@, "-D"@, branch@]);
    r
}

/// The arguments that delete `branch` on the remote: `push origin --delete <branch>`.
pub fn remote_delete_args(branch: &str) -> (r: Vec<String>)
    ensures
        string_views(r@) == seq!["push"@, "origin"@, "--delete"@, branch@],
{
    let mut r: Vec<String> = Vec::new();
    r.push(String::from_str("push"));
    r.push(String::from_str("origin"));
    r.push(String::from_str("--delete"));
    r.push(string_of(chars_of(branch).as_slice()));
    assert(string_views(r@) =~= seq!["push"@, "origin"@, "--delete"@, branch@]);
    r
}

/// The branches offered for deletion are the listed branches other than the current one,
/// in their order.
pub proof fn lemma_deletable_order(branches: Seq<Seq<char>>, current: Seq<char>)
    ensures
        deletable(branches, current) == branches.filter(|b: Seq<char>| b != current),
    decreases branches.len(),
{
    reveal(Seq::filter);
    if branches.len() > 0 {
        lemma_deletable_order(branches.drop_last(), current);
    }
}

/// The base of a squash is `main` or `master`, a listed branch other than the current one,
/// `main` whenever it qualifies; there is none only when neither qualifies.
pub proof fn lemma_squash_base(branches: Seq<Seq<char>>, current: Seq<char>)
    ensures
        squash_base_of(branches, current) matches Some(b) ==> branches.contains(b) && b != current && (b
            == "main"@ || b == "master"@),
        (branches.contains("main"@) && current != "main"@) ==> squash_base_of(branches, current) == Some(
            "main"@,
        ),
        squash_base_of(branches, current) is None ==> !(branches.contains("main"@) && current != "main"@)
            && !(branches.contains("master"@) && current != "master"@),
{
}

} // verus!
