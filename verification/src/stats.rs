//! Activity statistics computed from the output of `git log` and `git rev-list`.
use vstd::prelude::*;
use crate::text::{
    chars_eq, chars_of, concat, decimal, decimal_chars, lemma_lines_concat, lines, lines_of, pad_left,
    pad_left_chars,
    parse_u64, parse_unsigned, parse_usize, slice_vec, string_of, trim, trim_chars, views, words,
    words_of,
};

verus! {

// ---------------------------------------------------------------------------
// Specifications
// ---------------------------------------------------------------------------
/// A `--numstat` field read as a count; fields that are not numbers (`-` for binary files)
/// count as nothing.
pub open spec fn numstat_field(w: Seq<Seq<char>>, i: int) -> nat {
    match parse_unsigned(w[i], u64::MAX as nat) {
        Some(v) => v,
        None => 0,
    }
}

/// Lines added and deleted that one `--numstat` line reports.
pub open spec fn numstat_line(l: Seq<char>) -> (nat, nat) {
    let w = words(l);
    if w.len() >= 2 {
        (numstat_field(w, 0), numstat_field(w, 1))
    } else {
        (0, 0)
    }
}

/// Sum of the lines added and deleted over all lines `ls`.
pub open spec fn numstat_totals(ls: Seq<Seq<char>>) -> (nat, nat)
    decreases ls.len(),
{
    if ls.len() == 0 {
        (0, 0)
    } else {
        let prev = numstat_totals(ls.drop_last());
        let here = numstat_line(ls.last());
        (prev.0 + here.0, prev.1 + here.1)
    }
}

/// The file names that `git log --name-only` lists, one per mention, trimmed.
pub open spec fn touched_files(ls: Seq<Seq<char>>) -> Seq<Seq<char>>
    decreases ls.len(),
{
    if ls.len() == 0 {
        seq![]
    } else if trim(ls.last()).len() > 0 {
        touched_files(ls.drop_last()).push(trim(ls.last()))
    } else {
        touched_files(ls.drop_last())
    }
}

/// How often `x` occurs in `s`.
pub open spec fn occurrences(s: Seq<Seq<char>>, x: Seq<char>) -> nat
    decreases s.len(),
{
    if s.len() == 0 {
        0
    } else {
        occurrences(s.drop_last(), x) + if s.last() == x {
            1nat
        } else {
            0nat
        }
    }
}

/// Views of (file, count) pairs.
pub open spec fn count_views(v: Seq<(String, usize)>) -> Seq<(Seq<char>, nat)> {
    v.map_values(|p: (String, usize)| (p.0@, p.1 as nat))
}

/// `top` lists the most modified files of `files`: each with its true number of
/// mentions, no file twice, most mentioned first, at most `limit` of them, and every file
/// left out was mentioned no more often than the last one listed (all are listed when
/// fewer than `limit` are).
pub open spec fn is_top_files(top: Seq<(Seq<char>, nat)>, files: Seq<Seq<char>>, limit: nat) -> bool {
    &&& top.len() <= limit
    &&& forall|i: int| 0 <= i < top.len() ==> files.contains(#[trigger] top[i].0)
    &&& forall|i: int| 0 <= i < top.len() ==> #[trigger] top[i].1 == occurrences(files, top[i].0)
    &&& forall|i: int, j: int| 0 <= i < j < top.len() ==> top[i].0 != top[j].0
    &&& forall|i: int, j: int| 0 <= i < j < top.len() ==> #[trigger] top[i].1 >= #[trigger] top[j].1
    &&& forall|f: Seq<char>|
        #![trigger files.contains(f)]
        files.contains(f) && (forall|i: int| 0 <= i < top.len() ==> top[i].0 != f) ==> top.len()
            == limit && (limit > 0 ==> occurrences(files, f) <= top[top.len() - 1].1)
}

// ---------------------------------------------------------------------------
// Lemmas
// ---------------------------------------------------------------------------
proof fn lemma_occurrences_bound(s: Seq<Seq<char>>, x: Seq<char>)
    ensures
        occurrences(s, x) <= s.len(),
        occurrences(s, x) > 0 <==> s.contains(x),
    decreases s.len(),
{
    if s.len() > 0 {
        lemma_occurrences_bound(s.drop_last(), x);
        if s.drop_last().contains(x) {
            let k = choose|k: int| 0 <= k < s.drop_last().len() && s.drop_last()[k] == x;
            assert(s[k] == x);
        }
        if s.contains(x) && s.last() != x {
            let k = choose|k: int| 0 <= k < s.len() && s[k] == x;
            assert(s.drop_last()[k] == x);
        }
    }
}

proof fn lemma_touched_len(ls: Seq<Seq<char>>)
    ensures
        touched_files(ls).len() <= ls.len(),
    decreases ls.len(),
{
    if ls.len() > 0 {
        lemma_touched_len(ls.drop_last());
    }
}

// ---------------------------------------------------------------------------
// The arguments handed to git
// ---------------------------------------------------------------------------
/// The `--since` value for the last `days` days: `"<days> days ago"`.
pub fn since_arg(days: u32) -> (r: String)
    ensures
        r@ == decimal(days as nat) + " days ago"@,
{
    let d = decimal_chars(days as u64);
    let suffix = chars_of(" days ago");
    let all = concat(d.as_slice(), suffix.as_slice());
    string_of(all.as_slice())
}

// ---------------------------------------------------------------------------
// Statistics
// ---------------------------------------------------------------------------
/// Number of commits in the output of `git log --oneline`: one per line.
pub fn get_commit_count_days(log_output: &str) -> (r: usize)
    ensures
        r == lines(log_output@).len(),
{
    let cs = chars_of(log_output);
    let ls = lines_of(cs.as_slice());
    assert(views(ls@).len() == ls@.len());
    ls.len()
}

/// Both totals of the lines `ls` fit in `u64`.
pub open spec fn line_totals_fit(ls: Seq<Seq<char>>) -> bool {
    numstat_totals(ls).0 <= u64::MAX && numstat_totals(ls).1 <= u64::MAX
}

/// The totals of the lines of `log_output`, or `None` when one does not fit in `u64`.
fn checked_line_totals(log_output: &str) -> (r: Option<(u64, u64)>)
    ensures
        match r {
            Some(t) => numstat_totals(lines(log_output@)) == (t.0 as nat, t.1 as nat),
            None => numstat_totals(lines(log_output@)).0 > u64::MAX || numstat_totals(
                lines(log_output@),
            ).1 > u64::MAX,
        },
{
    let cs = chars_of(log_output);
    let ls = lines_of(cs.as_slice());
    let ghost all = lines(log_output@);
    let mut added: u128 = 0;
    let mut deleted: u128 = 0;
    let n = ls.len();
    assert(all.take(0) == Seq::<Seq<char>>::empty());
    for i in 0..n
        invariant
            n == ls@.len() == all.len(),
            views(ls@) == all,
            all == lines(log_output@),
            added == numstat_totals(all.take(i as int)).0,
            deleted == numstat_totals(all.take(i as int)).1,
            added <= u64::MAX,
            deleted <= u64::MAX,
    {
        let ws = words_of(ls[i].as_slice());
        let mut la: u128 = 0;
        let mut ld: u128 = 0;
        if ws.len() >= 2 {
            la = match parse_u64(ws[0].as_slice()) {
                Some(v) => v as u128,
                None => 0,
            };
            ld = match parse_u64(ws[1].as_slice()) {
                Some(v) => v as u128,
                None => 0,
            };
        }
        assert(all.take(i + 1).drop_last() == all.take(i as int));
        assert(all.take(i + 1).last() == ls@[i as int]@);
        assert(la == numstat_line(all[i as int]).0 && ld == numstat_line(all[i as int]).1);
        added = added + la;
        deleted = deleted + ld;
        assert(added == numstat_totals(all.take(i + 1)).0);
        assert(deleted == numstat_totals(all.take(i + 1)).1);
        if added > u64::MAX as u128 || deleted > u64::MAX as u128 {
            proof {
                lemma_numstat_monotone(all, i + 1);
            }
            return None;
        }
    }
    assert(all.take(n as int) == all);
    Some((added as u64, deleted as u64))
}

/// Whether both totals of `git log --numstat` output fit in `u64` (adding them up would
/// overflow otherwise).
pub fn line_stats_fit(log_output: &str) -> (r: bool)
    ensures
        r == line_totals_fit(lines(log_output@)),
{
    checked_line_totals(log_output).is_some()
}

/// Lines added and deleted in the output of `git log --numstat --pretty=format:`: the sum
/// over every line of at least two fields of its first two fields read as numbers.
pub fn get_line_stats_days(log_output: &str) -> (r: (u64, u64))
    requires
        line_totals_fit(lines(log_output@)),
    ensures
        numstat_totals(lines(log_output@)) == (r.0 as nat, r.1 as nat),
{
    match checked_line_totals(log_output) {
        Some(t) => t,
        None => {
            proof {
                assert(false);
            }
            (0, 0)
        },
    }
}

proof fn lemma_totals_concat(a: Seq<Seq<char>>, b: Seq<Seq<char>>)
    ensures
        numstat_totals(a + b) == (numstat_totals(a).0 + numstat_totals(b).0, numstat_totals(a).1
            + numstat_totals(b).1),
    decreases b.len(),
{
    if b.len() == 0 {
        assert(a + b == a);
    } else {
        lemma_totals_concat(a, b.drop_last());
        assert((a + b).drop_last() == a + b.drop_last());
        assert((a + b).last() == b.last());
    }
}

/// What one `--numstat` line adds: with at least two fields, its first field read as a
/// number (nothing when it is not one, such as `-` for a binary file) to the added lines and
/// its second to the deleted lines, however many words the path after them has (a rename
/// `a => b`, a path with spaces); with fewer fields, nothing.
pub proof fn lemma_numstat_line(l: Seq<char>)
    ensures
        words(l).len() < 2 ==> numstat_line(l) == (0nat, 0nat),
        words(l).len() >= 2 ==> numstat_line(l).0 == match parse_unsigned(words(l)[0], u64::MAX as nat) {
            Some(v) => v,
            None => 0nat,
        },
        words(l).len() >= 2 ==> numstat_line(l).1 == match parse_unsigned(words(l)[1], u64::MAX as nat) {
            Some(v) => v,
            None => 0nat,
        },
{
}

/// An output of one line (no line break) adds exactly what that line adds.
pub proof fn lemma_numstat_one_line(l: Seq<char>)
    requires
        l.len() > 0,
        !l.contains('\n'),
    ensures
        numstat_totals(lines(l)) == numstat_line(l),
{
    assert forall|k: int| 0 <= k < l.len() implies l[k] != '\n' by {
        if l[k] == '\n' {
            assert(l.contains('\n'));
        }
    }
    crate::text::lemma_first_index_is(l, '\n', l.len() as int);
    assert(lines(l) == seq![l]);
    assert(seq![l].drop_last() == Seq::<Seq<char>>::empty());
    assert(seq![l].last() == l);
    assert(numstat_totals(Seq::<Seq<char>>::empty()) == (0nat, 0nat));
    assert(numstat_totals(seq![l]).0 == numstat_line(l).0);
    assert(numstat_totals(seq![l]).1 == numstat_line(l).1);
}

/// Two `--numstat` lines whose first two fields are the same add the same counts, whatever
/// follows those fields.
pub proof fn lemma_numstat_path_ignored(l1: Seq<char>, l2: Seq<char>)
    requires
        words(l1).len() >= 2,
        words(l2).len() >= 2,
        words(l1)[0] == words(l2)[0],
        words(l1)[1] == words(l2)[1],
    ensures
        numstat_line(l1) == numstat_line(l2),
{
}

/// The totals of a line list are the totals without its last line plus what that line
/// adds by `lemma_numstat_line`: every line counts, in particular every line of at least
/// two fields.
pub proof fn lemma_numstat_totals_step(ls: Seq<Seq<char>>)
    requires
        ls.len() > 0,
    ensures
        numstat_totals(ls).0 == numstat_totals(ls.drop_last()).0 + numstat_line(ls.last()).0,
        numstat_totals(ls).1 == numstat_totals(ls.drop_last()).1 + numstat_line(ls.last()).1,
{
}

/// The line statistics of two `git log --numstat` outputs joined, the first empty or
/// ending with a line break, are the sums of their statistics.
pub proof fn lemma_line_stats_add(s1: Seq<char>, s2: Seq<char>)
    requires
        s1.len() == 0 || s1.last() == '\n',
    ensures
        numstat_totals(lines(s1 + s2)) == (numstat_totals(lines(s1)).0 + numstat_totals(
            lines(s2),
        ).0, numstat_totals(lines(s1)).1 + numstat_totals(lines(s2)).1),
        numstat_totals(lines(Seq::<char>::empty())) == (0nat, 0nat),
{
    lemma_lines_concat(s1, s2);
    lemma_totals_concat(lines(s1), lines(s2));
    assert(lines(Seq::<char>::empty()) == Seq::<Seq<char>>::empty());
}

proof fn lemma_numstat_monotone(ls: Seq<Seq<char>>, k: int)
    requires
        0 <= k <= ls.len(),
    ensures
        numstat_totals(ls.take(k)).0 <= numstat_totals(ls).0,
        numstat_totals(ls.take(k)).1 <= numstat_totals(ls).1,
    decreases ls.len(),
{
    if k < ls.len() {
        assert(ls.take(k) == ls.drop_last().take(k));
        lemma_numstat_monotone(ls.drop_last(), k);
    } else {
        assert(ls.take(k) == ls);
    }
}

/// Total number of commits (the output of `git rev-list --count HEAD`, 0 when it is not a
/// number) and the date of the first commit (the first line of
/// `git log --reverse --format=%ad --date=short`, `Unknown` when there is none).
pub fn get_total_stats(count_output: &str, dates_output: &str) -> (r: (usize, String))
    ensures
        r.0 == match parse_unsigned(trim(count_output@), usize::MAX as nat) {
            Some(v) => v,
            None => 0,
        },
        r.1@ == if lines(dates_output@).len() > 0 {
            lines(dates_output@)[0]
        } else {
            "Unknown"@
        },
{
    let cs = chars_of(count_output);
    let t = trim_chars(cs.as_slice());
    let count = match parse_usize(t.as_slice()) {
        Some(v) => v,
        None => 0,
    };
    let ds = chars_of(dates_output);
    let ls = lines_of(ds.as_slice());
    let first = if ls.len() > 0 {
        assert(views(ls@)[0] == ls@[0]@);
        string_of(ls[0].as_slice())
    } else {
        String::from_str("Unknown")
    };
    (count, first)
}

/// The distinct entries of `files`, in the order of their first occurrence.
pub open spec fn first_occurrences(files: Seq<Seq<char>>) -> Seq<Seq<char>>
    decreases files.len(),
{
    if files.len() == 0 {
        seq![]
    } else {
        let d = first_occurrences(files.drop_last());
        if d.contains(files.last()) {
            d
        } else {
            d.push(files.last())
        }
    }
}

/// The names of (name, count) pairs.
pub open spec fn names_of(v: Seq<(Vec<char>, usize)>) -> Seq<Seq<char>> {
    v.map_values(|p: (Vec<char>, usize)| p.0@)
}

proof fn lemma_first_occurrences(files: Seq<Seq<char>>)
    ensures
        forall|i: int, j: int|
            0 <= i < j < first_occurrences(files).len() ==> first_occurrences(files)[i]
                != first_occurrences(files)[j],
        forall|x: Seq<char>| #[trigger]
            first_occurrences(files).contains(x) <==> files.contains(x),
        first_occurrences(files).len() <= files.len(),
    decreases files.len(),
{
    if files.len() > 0 {
        let pre = files.drop_last();
        lemma_first_occurrences(pre);
        let d = first_occurrences(pre);
        assert forall|x: Seq<char>| #[trigger] first_occurrences(files).contains(x) <==> files.contains(x) by {
            if files.contains(x) && x != files.last() {
                let k = choose|k: int| 0 <= k < files.len() && files[k] == x;
                assert(pre[k] == x);
                assert(d.contains(x));
            }
            if pre.contains(x) {
                let k = choose|k: int| 0 <= k < pre.len() && pre[k] == x;
                assert(files[k] == x);
            }
            if !d.contains(files.last()) {
                let e = d.push(files.last());
                if e.contains(x) && x != files.last() {
                    let k = choose|k: int| 0 <= k < e.len() && e[k] == x;
                    assert(d[k] == x);
                }
                if d.contains(x) {
                    let k = choose|k: int| 0 <= k < d.len() && d[k] == x;
                    assert(e[k] == x);
                }
                assert(e[d.len() as int] == files.last());
            }
        }
    }
}

/// How often each file is mentioned, in the order of first mention.
fn count_mentions(ls: &Vec<Vec<char>>) -> (r: Vec<(Vec<char>, usize)>)
    ensures
        names_of(r@) == first_occurrences(touched_files(views(ls@))),
        forall|a: int|
            0 <= a < r@.len() ==> #[trigger] r@[a].1 == occurrences(
                touched_files(views(ls@)),
                r@[a].0@,
            ),
{
    let mut r: Vec<(Vec<char>, usize)> = Vec::new();
    let n = ls.len();
    let ghost all = views(ls@);
    assert(all.take(0) == Seq::<Seq<char>>::empty());
    for i in 0..n
        invariant
            n == ls@.len() == all.len(),
            all == views(ls@),
            names_of(r@) == first_occurrences(touched_files(all.take(i as int))),
            forall|a: int|
                0 <= a < r@.len() ==> #[trigger] r@[a].1 == occurrences(
                    touched_files(all.take(i as int)),
                    r@[a].0@,
                ),
    {
        let ghost pre = touched_files(all.take(i as int));
        assert(all.take(i + 1).drop_last() == all.take(i as int));
        assert(all.take(i + 1).last() == ls@[i as int]@);
        proof {
            lemma_touched_len(all.take(i as int));
            lemma_first_occurrences(pre);
        }
        let t = trim_chars(ls[i].as_slice());
        if t.len() > 0 {
            let ghost post = pre.push(t@);
            assert(touched_files(all.take(i + 1)) == post);
            assert(post.drop_last() == pre);
            let mut j: usize = 0;
            while j < r.len() && !chars_eq(r[j].0.as_slice(), t.as_slice())
                invariant
                    j <= r@.len(),
                    forall|a: int| 0 <= a < j ==> r@[a].0@ != t@,
                decreases r@.len() - j,
            {
                j = j + 1;
            }
            let ghost r_old = r@;
            if j < r.len() {
                assert(names_of(r_old)[j as int] == t@);
                assert(first_occurrences(post) == first_occurrences(pre));
                proof {
                    lemma_occurrences_bound(pre, t@);
                }
                let c = r[j].1;
                let name = slice_vec(r[j].0.as_slice(), 0, r[j].0.len());
                assert(r@[j as int].0@.subrange(0, r@[j as int].0@.len() as int) == r@[j as int].0@);
                r.set(j, (name, c + 1));
                assert(names_of(r@) == names_of(r_old));
                assert forall|a: int| 0 <= a < r@.len() implies #[trigger] r@[a].1
                    == occurrences(post, r@[a].0@) by {
                    if a != j {
                        assert(r@[a] == r_old[a]);
                        assert(names_of(r_old)[a] != names_of(r_old)[j as int]);
                    }
                }
            } else {
                assert(!first_occurrences(pre).contains(t@)) by {
                    if first_occurrences(pre).contains(t@) {
                        let k = choose|k: int|
                            0 <= k < first_occurrences(pre).len() && first_occurrences(pre)[k] == t@;
                        assert(names_of(r_old)[k] == r_old[k].0@);
                    }
                }
                proof {
                    lemma_occurrences_bound(pre, t@);
                }
                r.push((t, 1));
                assert(names_of(r@) == names_of(r_old).push(t@));
                assert forall|a: int| 0 <= a < r@.len() implies #[trigger] r@[a].1
                    == occurrences(post, r@[a].0@) by {
                    if a < r_old.len() {
                        assert(r@[a] == r_old[a]);
                        assert(names_of(r_old)[a] == r_old[a].0@);
                        assert(first_occurrences(pre).contains(r_old[a].0@));
                    }
                }
            }
        } else {
            assert(touched_files(all.take(i + 1)) == pre);
        }
    }
    assert(all.take(n as int) == all);
    r
}

/// The first entry not yet `taken` with the largest count, if any entry is left.
fn pick_most_mentioned(counts: &Vec<(Vec<char>, usize)>, taken: &Vec<bool>) -> (r: Option<usize>)
    requires
        taken@.len() == counts@.len(),
    ensures
        match r {
            Some(m) => m < counts@.len() && !taken@[m as int] && forall|c: int|
                0 <= c < counts@.len() && !taken@[c] ==> #[trigger] counts@[c].1 <= counts@[m as int].1,
            None => forall|c: int| 0 <= c < counts@.len() ==> #[trigger] taken@[c],
        },
{
    let mut best: Option<usize> = None;
    let n = counts.len();
    for c in 0..n
        invariant
            n == counts@.len() == taken@.len(),
            match best {
                Some(m) => m < c && !taken@[m as int] && forall|k: int|
                    0 <= k < c && !taken@[k] ==> #[trigger] counts@[k].1 <= counts@[m as int].1,
                None => forall|k: int| 0 <= k < c ==> #[trigger] taken@[k],
            },
    {
        if !taken[c] {
            match best {
                Some(m) => {
                    if counts[c].1 > counts[m].1 {
                        best = Some(c);
                    }
                },
                None => {
                    best = Some(c);
                },
            }
        }
    }
    best
}

/// The `limit` most modified files in the output of `git log --pretty=format: --name-only`,
/// with how often each is mentioned, most mentioned first.
pub fn get_top_modified_files(log_output: &str, limit: usize) -> (r: Vec<(String, usize)>)
    ensures
        is_top_files(count_views(r@), touched_files(lines(log_output@)), limit as nat),
{
    let cs = chars_of(log_output);
    let ls = lines_of(cs.as_slice());
    let counts = count_mentions(&ls);
    let ghost files = touched_files(lines(log_output@));
    proof {
        lemma_first_occurrences(files);
    }
    let n = counts.len();
    let mut taken: Vec<bool> = Vec::new();
    for c in 0..n
        invariant
            taken@.len() == c,
            forall|k: int| 0 <= k < c ==> !#[trigger] taken@[k],
    {
        taken.push(false);
    }
    let mut r: Vec<(String, usize)> = Vec::new();
    while r.len() < limit
        invariant
            n == counts@.len() == taken@.len(),
            files == touched_files(lines(log_output@)),
            r@.len() <= limit,
            names_of(counts@) == first_occurrences(files),
            forall|a: int| 0 <= a < counts@.len() ==> #[trigger] counts@[a].1 == occurrences(files, counts@[a].0@),
            forall|i: int, j: int|
                0 <= i < j < names_of(counts@).len() ==> names_of(counts@)[i] != names_of(counts@)[j],
            is_top_prefix(count_views(r@), names_of(counts@), counts@, taken@, files),
            forall|x: Seq<char>| #[trigger] first_occurrences(files).contains(x) <==> files.contains(x),
        decreases limit - r@.len(),
    {
        match pick_most_mentioned(&counts, &taken) {
            None => {
                proof {
                    lemma_top_complete(count_views(r@), counts@, taken@, files, limit as nat);
                }
                return r;
            },
            Some(m) => {
                let ghost before = count_views(r@);
                let ghost taken_before = taken@;
                let name = string_of(counts[m].0.as_slice());
                r.push((name, counts[m].1));
                taken.set(m, true);
                proof {
                    assert(count_views(r@) == before.push((counts@[m as int].0@, counts@[m as int].1 as nat)));
                    lemma_top_step(before, counts@, taken_before, files, m as int);
                }
            },
        }
    }
    proof {
        lemma_top_full(count_views(r@), counts@, taken@, files, limit as nat);
    }
    r
}

/// `top` lists, most mentioned first, exactly the `taken` entries of `counts`, and no entry
/// left was mentioned more often than the last one listed.
pub open spec fn is_top_prefix(
    top: Seq<(Seq<char>, nat)>,
    names: Seq<Seq<char>>,
    counts: Seq<(Vec<char>, usize)>,
    taken: Seq<bool>,
    files: Seq<Seq<char>>,
) -> bool {
    &&& forall|i: int| 0 <= i < top.len() ==> files.contains(#[trigger] top[i].0)
    &&& forall|i: int| 0 <= i < top.len() ==> #[trigger] top[i].1 == occurrences(files, top[i].0)
    &&& forall|i: int, j: int| 0 <= i < j < top.len() ==> top[i].0 != top[j].0
    &&& forall|i: int, j: int| 0 <= i < j < top.len() ==> #[trigger] top[i].1 >= #[trigger] top[j].1
    &&& forall|c: int|
        0 <= c < taken.len() ==> (#[trigger] taken[c] <==> exists|i: int|
            0 <= i < top.len() && top[i].0 == names[c])
    &&& forall|c: int|
        0 <= c < taken.len() && !#[trigger] taken[c] && top.len() > 0 ==> counts[c].1
            <= top[top.len() - 1].1
}

proof fn lemma_top_step(
    top: Seq<(Seq<char>, nat)>,
    counts: Seq<(Vec<char>, usize)>,
    taken: Seq<bool>,
    files: Seq<Seq<char>>,
    m: int,
)
    requires
        taken.len() == counts.len(),
        0 <= m < counts.len(),
        !taken[m],
        forall|c: int| 0 <= c < counts.len() && !taken[c] ==> #[trigger] counts[c].1 <= counts[m].1,
        names_of(counts) == first_occurrences(files),
        forall|a: int| 0 <= a < counts.len() ==> #[trigger] counts[a].1 == occurrences(files, counts[a].0@),
        forall|i: int, j: int|
            0 <= i < j < names_of(counts).len() ==> names_of(counts)[i] != names_of(counts)[j],
        forall|x: Seq<char>| #[trigger] first_occurrences(files).contains(x) <==> files.contains(x),
        is_top_prefix(top, names_of(counts), counts, taken, files),
    ensures
        is_top_prefix(
            top.push((counts[m].0@, counts[m].1 as nat)),
            names_of(counts),
            counts,
            taken.update(m, true),
            files,
        ),
{
    let names = names_of(counts);
    let e = (counts[m].0@, counts[m].1 as nat);
    let t2 = top.push(e);
    let tk = taken.update(m, true);
    assert(names[m] == counts[m].0@);
    assert(first_occurrences(files).contains(names[m]));
    assert forall|i: int| 0 <= i < t2.len() implies files.contains(#[trigger] t2[i].0) by {
        if i < top.len() {
            assert(t2[i] == top[i]);
        }
    }
    assert forall|i: int| 0 <= i < t2.len() implies #[trigger] t2[i].1 == occurrences(files, t2[i].0) by {
        if i < top.len() {
            assert(t2[i] == top[i]);
        }
    }
    assert forall|i: int, j: int| 0 <= i < j < t2.len() implies t2[i].0 != t2[j].0 by {
        if j == top.len() {
            assert(t2[i] == top[i]);
            if top[i].0 == names[m] {
                assert(taken[m]);
            }
        } else {
            assert(t2[i] == top[i] && t2[j] == top[j]);
        }
    }
    assert forall|i: int, j: int| 0 <= i < j < t2.len() implies #[trigger] t2[i].1 >= #[trigger] t2[j].1 by {
        if j == top.len() {
            assert(t2[i] == top[i]);
            assert(top[i].1 >= top[top.len() - 1].1);
        } else {
            assert(t2[i] == top[i] && t2[j] == top[j]);
        }
    }
    assert forall|c: int| 0 <= c < tk.len() implies (#[trigger] tk[c] <==> exists|i: int|
        0 <= i < t2.len() && t2[i].0 == names[c]) by {
        if c == m {
            assert(t2[top.len() as int].0 == names[c]);
        } else {
            assert(names[c] != names[m]);
            if taken[c] {
                let i = choose|i: int| 0 <= i < top.len() && top[i].0 == names[c];
                assert(t2[i] == top[i]);
            }
            if exists|i: int| 0 <= i < t2.len() && t2[i].0 == names[c] {
                let i = choose|i: int| 0 <= i < t2.len() && t2[i].0 == names[c];
                if i < top.len() {
                    assert(t2[i] == top[i]);
                }
            }
        }
    }
}

proof fn lemma_top_complete(
    top: Seq<(Seq<char>, nat)>,
    counts: Seq<(Vec<char>, usize)>,
    taken: Seq<bool>,
    files: Seq<Seq<char>>,
    limit: nat,
)
    requires
        taken.len() == counts.len(),
        top.len() <= limit,
        forall|c: int| 0 <= c < counts.len() ==> #[trigger] taken[c],
        names_of(counts) == first_occurrences(files),
        forall|x: Seq<char>| #[trigger] first_occurrences(files).contains(x) <==> files.contains(x),
        is_top_prefix(top, names_of(counts), counts, taken, files),
    ensures
        is_top_files(top, files, limit),
{
    let names = names_of(counts);
    assert forall|f: Seq<char>|
        #![trigger files.contains(f)]
        files.contains(f) && (forall|i: int| 0 <= i < top.len() ==> top[i].0 != f) implies top.len()
            == limit && (limit > 0 ==> occurrences(files, f) <= top[top.len() - 1].1) by {
        assert(first_occurrences(files).contains(f));
        let c = choose|c: int| 0 <= c < names.len() && names[c] == f;
        assert(taken[c]);
        let i = choose|i: int| 0 <= i < top.len() && top[i].0 == names[c];
    }
}

proof fn lemma_top_full(
    top: Seq<(Seq<char>, nat)>,
    counts: Seq<(Vec<char>, usize)>,
    taken: Seq<bool>,
    files: Seq<Seq<char>>,
    limit: nat,
)
    requires
        taken.len() == counts.len(),
        top.len() == limit,
        names_of(counts) == first_occurrences(files),
        forall|a: int| 0 <= a < counts.len() ==> #[trigger] counts[a].1 == occurrences(files, counts[a].0@),
        forall|x: Seq<char>| #[trigger] first_occurrences(files).contains(x) <==> files.contains(x),
        is_top_prefix(top, names_of(counts), counts, taken, files),
    ensures
        is_top_files(top, files, limit),
{
    let names = names_of(counts);
    assert forall|f: Seq<char>|
        #![trigger files.contains(f)]
        files.contains(f) && (forall|i: int| 0 <= i < top.len() ==> top[i].0 != f) implies top.len()
            == limit && (limit > 0 ==> occurrences(files, f) <= top[top.len() - 1].1) by {
        assert(first_occurrences(files).contains(f));
        let c = choose|c: int| 0 <= c < names.len() && names[c] == f;
        if taken[c] {
            let i = choose|i: int| 0 <= i < top.len() && top[i].0 == names[c];
        }
        assert(names[c] == counts[c].0@);
    }
}

/// A line of the most modified files: the count right-aligned in 3 characters, then
/// ` times - ` and the file, indented by two spaces.
pub fn top_file_row(file: &str, count: usize) -> (r: String)
    ensures
        r@ == "  "@ + pad_left(decimal(count as nat), 3) + " times - "@ + file@,
{
    let digits = decimal_chars(count as u64);
    let padded = pad_left_chars(digits.as_slice(), 3);
    let a = concat(chars_of("  ").as_slice(), padded.as_slice());
    let b = concat(a.as_slice(), chars_of(" times - ").as_slice());
    string_of(concat(b.as_slice(), chars_of(file).as_slice()).as_slice())
}

/// The files the name log mentions are its lines trimmed, blank ones left out, in order.
pub proof fn lemma_touched_files(ls: Seq<Seq<char>>)
    ensures
        touched_files(ls) == ls.map_values(|l: Seq<char>| trim(l)).filter(|t: Seq<char>| t.len() > 0),
    decreases ls.len(),
{
    reveal(Seq::filter);
    if ls.len() > 0 {
        lemma_touched_files(ls.drop_last());
        assert(ls.map_values(|l: Seq<char>| trim(l)).drop_last() =~= ls.drop_last().map_values(
            |l: Seq<char>| trim(l),
        ));
    } else {
        assert(ls.map_values(|l: Seq<char>| trim(l)) =~= Seq::<Seq<char>>::empty());
    }
}

/// How often a file is mentioned is its multiplicity among the mentions.
pub proof fn lemma_occurrences_count(s: Seq<Seq<char>>, x: Seq<char>)
    ensures
        occurrences(s, x) == s.to_multiset().count(x),
    decreases s.len(),
{
    broadcast use vstd::multiset::group_multiset_axioms;
    if s.len() == 0 {
        assert(s.to_multiset() =~= vstd::multiset::Multiset::<Seq<char>>::empty()) by {
            broadcast use vstd::seq_lib::group_to_multiset_ensures;
        }
    } else {
        lemma_occurrences_count(s.drop_last(), x);
        assert(s == s.drop_last().push(s.last()));
        vstd::seq_lib::to_multiset_build(s.drop_last(), s.last());
    }
}

/// The most modified files, as listed: each file was mentioned, as many times as its count
/// says (its multiplicity among the mentions), no file twice, counts never increasing, at
/// most `limit` files, and a file left out only when the list is full and it was mentioned
/// no more often than the last one listed.
pub proof fn lemma_top_files(top: Seq<(Seq<char>, nat)>, files: Seq<Seq<char>>, limit: nat)
    requires
        is_top_files(top, files, limit),
    ensures
        top.len() <= limit,
        forall|i: int|
            0 <= i < top.len() ==> #[trigger] top[i].1 == files.to_multiset().count(top[i].0) && top[i].1
                > 0,
        forall|i: int, j: int| 0 <= i < j < top.len() ==> top[i].0 != top[j].0 && top[i].1 >= top[j].1,
        forall|f: Seq<char>|
            #![trigger files.to_multiset().count(f)]
            files.to_multiset().count(f) > 0 && (forall|i: int| 0 <= i < top.len() ==> top[i].0 != f)
                ==> top.len() == limit && (limit > 0 ==> files.to_multiset().count(f) <= top[top.len()
                - 1].1),
{
    assert forall|i: int| 0 <= i < top.len() implies #[trigger] top[i].1 == files.to_multiset().count(
        top[i].0,
    ) && top[i].1 > 0 by {
        lemma_occurrences_count(files, top[i].0);
        lemma_occurrences_bound(files, top[i].0);
    }
    assert forall|f: Seq<char>|
        #![trigger files.to_multiset().count(f)]
        files.to_multiset().count(f) > 0 && (forall|i: int| 0 <= i < top.len() ==> top[i].0 != f)
            implies top.len() == limit && (limit > 0 ==> files.to_multiset().count(f) <= top[top.len()
            - 1].1) by {
        lemma_occurrences_count(files, f);
        lemma_occurrences_bound(files, f);
        assert(files.contains(f));
    }
}

} // verus!
