//! The file tree drawn in `info/context.md` and `info/tree.txt`, and the rest of the context
//! document.
use vstd::prelude::*;
use crate::text::{
    chars_eq, chars_of, concat, lemma_lex_total, lemma_lex_trans, lex_le, lex_less, lex_lt, string_of,
    string_views,
};

verus! {

// ---------------------------------------------------------------------------
// Sorting a directory
// ---------------------------------------------------------------------------
/// An entry of a directory.
pub struct DirEntry {
    pub name: String,
    pub is_dir: bool,
}

/// Views of directory entries: (name, is a directory).
pub open spec fn dir_views(v: Seq<DirEntry>) -> Seq<(Seq<char>, bool)> {
    v.map_values(|e: DirEntry| (e.name@, e.is_dir))
}

/// `s` with `e` inserted after every entry whose name is not greater than its name.
pub open spec fn insert_by_name(s: Seq<(Seq<char>, bool)>, e: (Seq<char>, bool)) -> Seq<(Seq<char>, bool)>
    decreases s.len(),
{
    if s.len() == 0 {
        seq![e]
    } else if lex_lt(e.0, s.last().0) {
        insert_by_name(s.drop_last(), e).push(s.last())
    } else {
        s.push(e)
    }
}

/// The entries ordered by name; entries of equal names keep their order (a stable sort).
pub open spec fn sort_by_name(es: Seq<(Seq<char>, bool)>) -> Seq<(Seq<char>, bool)>
    decreases es.len(),
{
    if es.len() == 0 {
        seq![]
    } else {
        insert_by_name(sort_by_name(es.drop_last()), es.last())
    }
}

/// The names never decrease along `s`.
pub open spec fn names_sorted(s: Seq<(Seq<char>, bool)>) -> bool {
    forall|i: int, j: int| 0 <= i < j < s.len() ==> lex_le(#[trigger] s[i].0, #[trigger] s[j].0)
}

proof fn lemma_insert_at(s: Seq<(Seq<char>, bool)>, e: (Seq<char>, bool), p: int)
    requires
        0 <= p <= s.len(),
        forall|k: int| p <= k < s.len() ==> lex_lt(e.0, #[trigger] s[k].0),
        p > 0 ==> !lex_lt(e.0, s[p - 1].0),
    ensures
        insert_by_name(s, e) == s.take(p) + seq![e] + s.skip(p),
    decreases s.len(),
{
    if s.len() == 0 {
        assert(s.take(p) + seq![e] + s.skip(p) == seq![e]);
    } else if p == s.len() {
        assert(s.take(p) == s);
        assert(s.skip(p) == Seq::<(Seq<char>, bool)>::empty());
    } else {
        let pre = s.drop_last();
        assert(lex_lt(e.0, s.last().0));
        assert forall|k: int| p <= k < pre.len() implies lex_lt(e.0, #[trigger] pre[k].0) by {
            assert(pre[k] == s[k]);
        }
        if p > 0 {
            assert(pre[p - 1] == s[p - 1]);
        }
        lemma_insert_at(pre, e, p);
        assert(pre.take(p) + seq![e] + pre.skip(p) + seq![s.last()] == s.take(p) + seq![e] + s.skip(p));
    }
}

/// Sorting by name gives the same entries, ordered by name.
pub proof fn lemma_sort_by_name(es: Seq<(Seq<char>, bool)>)
    ensures
        names_sorted(sort_by_name(es)),
        sort_by_name(es).len() == es.len(),
        sort_by_name(es).to_multiset() == es.to_multiset(),
    decreases es.len(),
{
    if es.len() > 0 {
        let pre = es.drop_last();
        lemma_sort_by_name(pre);
        let s = sort_by_name(pre);
        let e = es.last();
        let p = insert_position(s, e);
        lemma_insert_position(s, e);
        lemma_insert_at(s, e, p);
        let r = s.take(p) + seq![e] + s.skip(p);
        assert forall|i: int, j: int| 0 <= i < j < r.len() implies lex_le(#[trigger] r[i].0, #[trigger] r[j].0) by {
            if j < p {
                assert(r[i] == s[i] && r[j] == s[j]);
            } else if i > p {
                assert(r[i] == s[i - 1] && r[j] == s[j - 1]);
            } else if j == p {
                assert(r[i] == s[i]);
                assert(!lex_lt(e.0, s[p - 1].0));
                lemma_lex_total(e.0, s[p - 1].0);
                if i < p - 1 {
                    assert(lex_le(s[i].0, s[p - 1].0));
                    if lex_lt(s[i].0, s[p - 1].0) && lex_lt(s[p - 1].0, e.0) {
                        lemma_lex_trans(s[i].0, s[p - 1].0, e.0);
                    }
                }
            } else if i == p {
                assert(r[j] == s[j - 1]);
                assert(lex_lt(e.0, s[j - 1].0));
            } else {
                assert(r[i] == s[i] && r[j] == s[j - 1]);
            }
        }
        assert(es == pre.push(e));
        assert(sort_by_name(es) == insert_by_name(s, e));
        let a = s.take(p);
        let b = s.skip(p);
        let one = seq![e];
        assert(r == a + (one + b));
        vstd::seq_lib::lemma_multiset_commutative(a, one + b);
        vstd::seq_lib::lemma_multiset_commutative(one, b);
        vstd::seq_lib::lemma_multiset_commutative(a, b);
        assert(s == a + b);
        vstd::seq_lib::lemma_multiset_commutative(pre, one);
        assert(es == pre + one);
        assert(r.to_multiset() == es.to_multiset()) by {
            broadcast use vstd::multiset::group_multiset_axioms;

            assert(r.to_multiset() == a.to_multiset().add(one.to_multiset().add(b.to_multiset())));
            assert(es.to_multiset() == a.to_multiset().add(b.to_multiset()).add(one.to_multiset()));
            assert(r.to_multiset() =~= es.to_multiset());
        }
    } else {
        assert(es == Seq::<(Seq<char>, bool)>::empty());
    }
}

/// Where `insert_by_name` puts `e`: after the last entry whose name is not greater.
pub open spec fn insert_position(s: Seq<(Seq<char>, bool)>, e: (Seq<char>, bool)) -> int
    decreases s.len(),
{
    if s.len() == 0 {
        0
    } else if lex_lt(e.0, s.last().0) {
        insert_position(s.drop_last(), e)
    } else {
        s.len() as int
    }
}

proof fn lemma_insert_position(s: Seq<(Seq<char>, bool)>, e: (Seq<char>, bool))
    ensures
        0 <= insert_position(s, e) <= s.len(),
        forall|k: int| insert_position(s, e) <= k < s.len() ==> lex_lt(e.0, #[trigger] s[k].0),
        insert_position(s, e) > 0 ==> !lex_lt(e.0, s[insert_position(s, e) - 1].0),
    decreases s.len(),
{
    if s.len() > 0 && lex_lt(e.0, s.last().0) {
        let pre = s.drop_last();
        lemma_insert_position(pre, e);
        assert forall|k: int| insert_position(s, e) <= k < s.len() implies lex_lt(e.0, #[trigger] s[k].0) by {
            if k < pre.len() {
                assert(pre[k] == s[k]);
            }
        }
        if insert_position(s, e) > 0 {
            assert(pre[insert_position(s, e) - 1] == s[insert_position(s, e) - 1]);
        }
    }
}

/// The entries of a directory ordered by name.
pub fn sort_entries(entries: &Vec<DirEntry>) -> (r: Vec<DirEntry>)
    ensures
        dir_views(r@) == sort_by_name(dir_views(entries@)),
{
    let mut r: Vec<DirEntry> = Vec::new();
    let ghost all = dir_views(entries@);
    let n = entries.len();
    assert(all.take(0) == Seq::<(Seq<char>, bool)>::empty());
    for i in 0..n
        invariant
            n == entries@.len() == all.len(),
            all == dir_views(entries@),
            dir_views(r@) == sort_by_name(all.take(i as int)),
    {
        let ghost s = dir_views(r@);
        let name = chars_of(entries[i].name.as_str());
        let e = DirEntry { name: string_of(name.as_slice()), is_dir: entries[i].is_dir };
        let ghost ev = (e.name@, e.is_dir);
        assert(all.take(i + 1).drop_last() == all.take(i as int));
        assert(all.take(i + 1).last() == ev);
        let mut p = r.len();
        while p > 0 && lex_less(name.as_slice(), chars_of(r[p - 1].name.as_str()).as_slice())
            invariant
                p <= r@.len(),
                s == dir_views(r@),
                name@ == ev.0,
                forall|k: int| p <= k < s.len() ==> lex_lt(ev.0, #[trigger] s[k].0),
            decreases p,
        {
            assert(s[p - 1] == (r@[p - 1].name@, r@[p - 1].is_dir));
            p = p - 1;
        }
        proof {
            if p > 0 {
                assert(s[p - 1] == (r@[p - 1].name@, r@[p - 1].is_dir));
            }
            lemma_insert_at(s, ev, p as int);
        }
        r.insert(p, e);
        assert(dir_views(r@) =~= s.take(p as int) + seq![ev] + s.skip(p as int));
    }
    assert(all.take(n as int) == all);
    r
}

// ---------------------------------------------------------------------------
// Drawing a directory
// ---------------------------------------------------------------------------
/// A drawn line of the tree, and the prefix of the lines of the directory it names.
pub struct TreeLine {
    pub text: String,
    /// For a directory, the prefix its entries are drawn with.
    pub child_prefix: Option<String>,
}

/// The branch drawn before an entry.
pub open spec fn connector(is_last: bool) -> Seq<char> {
    if is_last {
        "\u{2514}\u{2500}\u{2500} "@
    } else {
        "\u{251c}\u{2500}\u{2500} "@
    }
}

/// What the entries of a directory add to the prefix.
pub open spec fn child_pad(is_last: bool) -> Seq<char> {
    if is_last {
        "    "@
    } else {
        "\u{2502}   "@
    }
}

/// The line of entry `e` under `prefix`: the prefix, the branch, and the name (with a `/`
/// for a directory); and, for a directory, the prefix of its own entries.
pub open spec fn tree_line(prefix: Seq<char>, e: (Seq<char>, bool), is_last: bool) -> (Seq<char>, Option<Seq<char>>) {
    (
        prefix + connector(is_last) + if e.1 {
            e.0 + "/"@
        } else {
            e.0
        },
        if e.1 {
            Some(prefix + child_pad(is_last))
        } else {
            None
        },
    )
}

/// Views of drawn lines.
pub open spec fn tree_line_view(l: TreeLine) -> (Seq<char>, Option<Seq<char>>) {
    (
        l.text@,
        match l.child_prefix {
            Some(p) => Some(p@),
            None => None,
        },
    )
}

/// The lines of a directory whose entries are `entries`, drawn under `prefix`: the entries
/// ordered by name, the last one with the closing branch.
pub fn render_level(entries: &Vec<DirEntry>, prefix: &str) -> (r: Vec<TreeLine>)
    ensures
        r@.len() == entries@.len(),
        forall|i: int|
            0 <= i < r@.len() ==> tree_line_view(#[trigger] r@[i]) == tree_line(
                prefix@,
                sort_by_name(dir_views(entries@))[i],
                i == r@.len() - 1,
            ),
{
    let sorted = sort_entries(entries);
    proof {
        lemma_sort_by_name(dir_views(entries@));
    }
    let ghost sv = dir_views(sorted@);
    let p = chars_of(prefix);
    let n = sorted.len();
    let mut r: Vec<TreeLine> = Vec::new();
    for i in 0..n
        invariant
            n == sorted@.len() == entries@.len(),
            sv == dir_views(sorted@),
            sv == sort_by_name(dir_views(entries@)),
            p@ == prefix@,
            r@.len() == i,
            forall|k: int|
                0 <= k < i ==> tree_line_view(#[trigger] r@[k]) == tree_line(prefix@, sv[k], k == n - 1),
    {
        let is_last = i == n - 1;
        let conn = if is_last {
            chars_of("\u{2514}\u{2500}\u{2500} ")
        } else {
            chars_of("\u{251c}\u{2500}\u{2500} ")
        };
        let name = chars_of(sorted[i].name.as_str());
        let shown = if sorted[i].is_dir {
            concat(name.as_slice(), chars_of("/").as_slice())
        } else {
            name
        };
        let text = concat(concat(p.as_slice(), conn.as_slice()).as_slice(), shown.as_slice());
        let child = if sorted[i].is_dir {
            let pad = if is_last {
                chars_of("    ")
            } else {
                chars_of("\u{2502}   ")
            };
            Some(string_of(concat(p.as_slice(), pad.as_slice()).as_slice()))
        } else {
            None
        };
        let line = TreeLine { text: string_of(text.as_slice()), child_prefix: child };
        assert(sv[i as int] == (sorted@[i as int].name@, sorted@[i as int].is_dir));
        assert(tree_line_view(line) == tree_line(prefix@, sv[i as int], i == n - 1));
        r.push(line);
    }
    r
}

// ---------------------------------------------------------------------------
// Drawing a whole tree
// ---------------------------------------------------------------------------
/// A walked directory tree: an entry, and for a directory the kept entries inside it, in
/// the order the directory listed them.
pub struct TreeNode {
    pub name: String,
    pub is_dir: bool,
    pub children: Vec<TreeNode>,
}

/// (name, is a directory) of each node.
pub open spec fn node_views(v: Seq<TreeNode>) -> Seq<(Seq<char>, bool)> {
    v.map_values(|n: TreeNode| (n.name@, n.is_dir))
}

/// Position of the first entry of `children` from position `k` on named `name`, or the
/// number of entries when there is none.
pub open spec fn first_child(children: Seq<TreeNode>, name: Seq<char>, k: int) -> int
    decreases children.len() - k,
{
    if k < 0 || k >= children.len() {
        children.len() as int
    } else if children[k].name@ == name {
        k
    } else {
        first_child(children, name, k + 1)
    }
}

proof fn lemma_first_child(children: Seq<TreeNode>, name: Seq<char>, k: int)
    requires
        0 <= k <= children.len(),
    ensures
        k <= first_child(children, name, k) <= children.len(),
        first_child(children, name, k) < children.len() ==> children[first_child(children, name, k)].name@
            == name,
        forall|q: int| k <= q < first_child(children, name, k) ==> children[q].name@ != name,
    decreases children.len() - k,
{
    if k < children.len() && children[k].name@ != name {
        lemma_first_child(children, name, k + 1);
    }
}

/// The lines that draw the entries of `node` from position `k` of their order by name,
/// under `prefix`: each entry's line, followed for a directory by the lines of its own
/// entries (those of the first entry of that name) under the prefix its line gives.
pub open spec fn level_lines(node: TreeNode, prefix: Seq<char>, k: int) -> Seq<Seq<char>>
    decreases node, node.children@.len() - k,
    via level_lines_decreases
{
    let es = sort_by_name(node_views(node.children@));
    if k < 0 || k >= es.len() || es.len() != node.children@.len() {
        seq![]
    } else {
        let l = tree_line(prefix, es[k], k == es.len() - 1);
        let j = first_child(node.children@, es[k].0, 0);
        let sub = if es[k].1 && 0 <= j < node.children@.len() {
            level_lines(node.children@[j], l.1->0, 0)
        } else {
            seq![]
        };
        seq![l.0] + sub + level_lines(node, prefix, k + 1)
    }
}

#[via_fn]
proof fn level_lines_decreases(node: TreeNode, prefix: Seq<char>, k: int) {
    let es = sort_by_name(node_views(node.children@));
    if !(k < 0 || k >= es.len() || es.len() != node.children@.len()) {
        let j = first_child(node.children@, es[k].0, 0);
        if es[k].1 && 0 <= j < node.children@.len() {
            assert(decreases_to!(node => node.children));
            assert(decreases_to!(node.children => node.children@));
            assert(decreases_to!(node.children@ => node.children@[j]));
        }
    }
}

/// The lines joined, each ended by a line break.
pub open spec fn with_newlines(ls: Seq<Seq<char>>) -> Seq<char>
    decreases ls.len(),
{
    if ls.len() == 0 {
        seq![]
    } else {
        with_newlines(ls.drop_last()) + ls.last() + "\n"@
    }
}

/// The lines that draw the entries of `node` under `prefix`, ordered by name at every level.
pub fn render_tree_lines(node: &TreeNode, prefix: &str) -> (r: Vec<String>)
    ensures
        string_views(r@) == level_lines(*node, prefix@, 0),
    decreases node,
{
    let mut entries: Vec<DirEntry> = Vec::new();
    let n = node.children.len();
    for i in 0..n
        invariant
            n == node.children@.len(),
            dir_views(entries@) == node_views(node.children@).take(i as int),
    {
        let e = DirEntry {
            name: string_of(chars_of(node.children[i].name.as_str()).as_slice()),
            is_dir: node.children[i].is_dir,
        };
        let ghost before = entries@;
        entries.push(e);
        assert(dir_views(entries@) == dir_views(before).push((e.name@, e.is_dir)));
        assert(node_views(node.children@).take(i + 1) == node_views(node.children@).take(i as int).push(
            (node.children@[i as int].name@, node.children@[i as int].is_dir),
        ));
    }
    assert(node_views(node.children@).take(n as int) == node_views(node.children@));
    let sorted = sort_entries(&entries);
    let drawn = render_level(&entries, prefix);
    proof {
        lemma_sort_by_name(dir_views(entries@));
    }
    let ghost es = sort_by_name(node_views(node.children@));
    let mut r: Vec<String> = Vec::new();
    let m = drawn.len();
    assert(es.len() == n);
    for k in 0..m
        invariant
            m == drawn@.len() == sorted@.len() == n == node.children@.len() == es.len(),
            es == sort_by_name(node_views(node.children@)),
            dir_views(sorted@) == es,
            forall|i: int|
                0 <= i < m ==> tree_line_view(#[trigger] drawn@[i]) == tree_line(prefix@, es[i], i == m - 1),
            level_lines(*node, prefix@, 0) == string_views(r@) + level_lines(*node, prefix@, k as int),
    {
        let ghost l = tree_line(prefix@, es[k as int], k == m - 1);
        assert(tree_line_view(drawn@[k as int]) == l);
        assert(es[k as int] == (sorted@[k as int].name@, sorted@[k as int].is_dir));
        let ghost before = r@;
        let text = string_of(chars_of(drawn[k].text.as_str()).as_slice());
        r.push(text);
        let mut sub: Vec<String> = Vec::new();
        if sorted[k].is_dir {
            let name = chars_of(sorted[k].name.as_str());
            let mut j: usize = 0;
            while j < n && !chars_eq(chars_of(node.children[j].name.as_str()).as_slice(), name.as_slice())
                invariant
                    j <= n == node.children@.len(),
                    k < es.len(),
                    name@ == es[k as int].0,
                    first_child(node.children@, es[k as int].0, 0) == first_child(
                        node.children@,
                        es[k as int].0,
                        j as int,
                    ),
                decreases n - j,
            {
                j = j + 1;
            }
            if j < n {
                assert(first_child(node.children@, es[k as int].0, j as int) == j);
                match &drawn[k].child_prefix {
                    Some(p) => {
                        sub = render_tree_lines(&node.children[j], p.as_str());
                    },
                    None => {
                        proof {
                            assert(false);
                        }
                    },
                }
            } else {
                assert(first_child(node.children@, es[k as int].0, 0) == n);
            }
        }
        let ghost sub_view = string_views(sub@);
        proof {
            lemma_first_child(node.children@, es[k as int].0, 0);
        }
        assert(sub_view == ({
            let j = first_child(node.children@, es[k as int].0, 0);
            if es[k as int].1 && 0 <= j < node.children@.len() {
                level_lines(node.children@[j], l.1->0, 0)
            } else {
                seq![]
            }
        }));
        let ns = sub.len();
        for t in 0..ns
            invariant
                ns == sub@.len(),
                string_views(r@) == string_views(before) + seq![l.0] + string_views(sub@).take(t as int),
        {
            let ghost b2 = r@;
            let s2 = string_of(chars_of(sub[t].as_str()).as_slice());
            r.push(s2);
            assert(string_views(r@) == string_views(b2).push(s2@));
            assert(string_views(sub@).take(t + 1) == string_views(sub@).take(t as int).push(sub@[t as int]@));
        }
        assert(string_views(sub@).take(ns as int) == sub_view);
        assert(level_lines(*node, prefix@, k as int) == seq![l.0] + sub_view + level_lines(
            *node,
            prefix@,
            k + 1,
        ));
        assert(string_views(r@) + level_lines(*node, prefix@, k + 1) == string_views(before) + (seq![
            l.0,
        ] + sub_view + level_lines(*node, prefix@, k + 1)));
    }
    assert(level_lines(*node, prefix@, m as int) == Seq::<Seq<char>>::empty());
    r
}

/// The text of a whole tree: the root's name with `/`, then every line of its entries,
/// each line ended by a line break.
pub fn render_tree_text(root: &TreeNode) -> (r: String)
    ensures
        r@ == root.name@ + "/\n"@ + with_newlines(level_lines(*root, ""@, 0)),
{
    let ls = render_tree_lines(root, "");
    let mut out = concat(chars_of(root.name.as_str()).as_slice(), chars_of("/\n").as_slice());
    let ghost head = out@;
    let n = ls.len();
    assert(string_views(ls@).take(0) == Seq::<Seq<char>>::empty());
    for i in 0..n
        invariant
            n == ls@.len(),
            out@ == head + with_newlines(string_views(ls@).take(i as int)),
    {
        let line = chars_of(ls[i].as_str());
        let with_line = concat(out.as_slice(), line.as_slice());
        out = concat(with_line.as_slice(), chars_of("\n").as_slice());
        let ghost t = string_views(ls@).take(i + 1);
        assert(t.drop_last() == string_views(ls@).take(i as int));
        assert(t.last() == ls@[i as int]@);
    }
    assert(string_views(ls@).take(n as int) == string_views(ls@));
    string_of(out.as_slice())
}

// ---------------------------------------------------------------------------
// Walks and the context document
// ---------------------------------------------------------------------------
/// Names the context walk leaves out: `.git`, `info`, `target` and `node_modules`.
pub fn context_entry_allowed(name: &str) -> (r: bool)
    ensures
        r == (name@ != ".git"@ && name@ != "info"@ && name@ != "target"@ && name@ != "node_modules"@),
{
    let n = chars_of(name);
    !chars_eq(n.as_slice(), chars_of(".git").as_slice()) && !chars_eq(n.as_slice(), chars_of("info").as_slice())
        && !chars_eq(n.as_slice(), chars_of("target").as_slice()) && !chars_eq(
        n.as_slice(),
        chars_of("node_modules").as_slice(),
    )
}

/// Names the tree walk leaves out: `.git`, `info` and `target`.
pub fn tree_entry_allowed(name: &str) -> (r: bool)
    ensures
        r == (name@ != ".git"@ && name@ != "info"@ && name@ != "target"@),
{
    let n = chars_of(name);
    !chars_eq(n.as_slice(), chars_of(".git").as_slice()) && !chars_eq(n.as_slice(), chars_of("info").as_slice())
        && !chars_eq(n.as_slice(), chars_of("target").as_slice())
}

/// Names the packing walk leaves out: `.git`.
pub fn pack_entry_allowed(name: &str) -> (r: bool)
    ensures
        r == (name@ != ".git"@),
{
    !chars_eq(chars_of(name).as_slice(), chars_of(".git").as_slice())
}

/// The section of the context document for one file: a heading with its path, then its
/// text in a code block tagged with its extension.
pub fn file_section(relative_path: &str, ext: &str, content: &str) -> (r: String)
    ensures
        r@ == "\n### "@ + relative_path@ + "\n"@ + "```"@ + ext@ + "\n"@ + content@ + "\n```\n"@,
{
    let a = concat(chars_of("\n### ").as_slice(), chars_of(relative_path).as_slice());
    let b = concat(a.as_slice(), chars_of("\n").as_slice());
    let c = concat(b.as_slice(), chars_of("```").as_slice());
    let d = concat(c.as_slice(), chars_of(ext).as_slice());
    let e = concat(d.as_slice(), chars_of("\n").as_slice());
    let f = concat(e.as_slice(), chars_of(content).as_slice());
    string_of(concat(f.as_slice(), chars_of("\n```\n").as_slice()).as_slice())
}

/// The context document: a title, the file tree in a text block, then the file sections.
pub fn context_document(project_name: &str, tree: &str, sections: &str) -> (r: String)
    ensures
        r@ == "# Project Context: "@ + project_name@ + "\n\n## File Structure\n\n```text\n"@ + tree@
            + "\n```\n\n## File Contents\n"@ + sections@,
{
    let a = concat(chars_of("# Project Context: ").as_slice(), chars_of(project_name).as_slice());
    let b = concat(a.as_slice(), chars_of("\n\n## File Structure\n\n```text\n").as_slice());
    let c = concat(b.as_slice(), chars_of(tree).as_slice());
    let d = concat(c.as_slice(), chars_of("\n```\n\n## File Contents\n").as_slice());
    string_of(concat(d.as_slice(), chars_of(sections).as_slice()).as_slice())
}

/// The estimated number of tokens of a text of `total_chars` bytes: one per four.
pub fn estimated_tokens(total_chars: usize) -> (r: usize)
    ensures
        r == total_chars / 4,
{
    total_chars / 4
}

/// Every line drawn for the entries of a directory starts with the prefix it is drawn
/// under, and there is at least one line per entry from position `k` on.
pub proof fn lemma_level_lines_prefix(node: TreeNode, prefix: Seq<char>, k: int)
    requires
        0 <= k,
    ensures
        forall|i: int|
            0 <= i < level_lines(node, prefix, k).len() ==> (#[trigger] level_lines(node, prefix, k)[i]).len()
                >= prefix.len() && level_lines(node, prefix, k)[i].take(prefix.len() as int) == prefix,
        level_lines(node, prefix, k).len() >= node.children@.len() - k,
    decreases node, node.children@.len() - k,
{
    let es = sort_by_name(node_views(node.children@));
    lemma_sort_by_name(node_views(node.children@));
    if !(k >= es.len() || es.len() != node.children@.len()) {
        let l = tree_line(prefix, es[k], k == es.len() - 1);
        let j = first_child(node.children@, es[k].0, 0);
        let sub = if es[k].1 && 0 <= j < node.children@.len() {
            level_lines(node.children@[j], l.1->0, 0)
        } else {
            seq![]
        };
        let rest = level_lines(node, prefix, k + 1);
        lemma_level_lines_prefix(node, prefix, k + 1);
        if es[k].1 && 0 <= j < node.children@.len() {
            assert(decreases_to!(node => node.children));
            assert(decreases_to!(node.children => node.children@));
            assert(decreases_to!(node.children@ => node.children@[j]));
            lemma_level_lines_prefix(node.children@[j], l.1->0, 0);
            let cp = l.1->0;
            assert(cp.take(prefix.len() as int) == prefix);
            assert forall|i: int| 0 <= i < sub.len() implies (#[trigger] sub[i]).len() >= prefix.len()
                && sub[i].take(prefix.len() as int) == prefix by {
                assert(sub[i].take(cp.len() as int) == cp);
                assert(sub[i].take(prefix.len() as int) == cp.take(prefix.len() as int));
            }
        }
        let all = seq![l.0] + sub + rest;
        assert(level_lines(node, prefix, k) == all);
        assert(l.0.take(prefix.len() as int) == prefix);
        assert forall|i: int| 0 <= i < all.len() implies (#[trigger] all[i]).len() >= prefix.len()
            && all[i].take(prefix.len() as int) == prefix by {
            if i == 0 {
            } else if i < 1 + sub.len() {
                assert(all[i] == sub[i - 1]);
            } else {
                assert(all[i] == rest[i - 1 - sub.len()]);
            }
        }
    }
}

} // verus!
