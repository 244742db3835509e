//! Merge conflicts: which files `git status --porcelain` reports as conflicted, and what to
//! show of the conflict markers inside a file.
use vstd::prelude::*;
use crate::text::{
    byte_len, byte_len_gt, byte_skip, chars_of, is_boundary, is_boundary_at, lines, lines_of,
    skip_bytes, starts_with, starts_with_chars, string_of, string_views, views,
};

verus! {

// ---------------------------------------------------------------------------
// Conflicted files
// ---------------------------------------------------------------------------
/// The porcelain status codes of unmerged paths that are treated as conflicts.
pub open spec fn is_conflict_line(l: Seq<char>) -> bool {
    ||| starts_with(l, seq!['U', 'U'])
    ||| starts_with(l, seq!['A', 'A'])
    ||| starts_with(l, seq!['D', 'U'])
    ||| starts_with(l, seq!['U', 'D'])
}

/// A conflict line that names a path (longer than its 3-byte `XY ` prefix).
pub open spec fn names_conflict(l: Seq<char>) -> bool {
    is_conflict_line(l) && byte_len(l) > 3
}

/// The paths of the conflict lines of `ls` (each line without its first 3 bytes).
pub open spec fn conflicted_paths(ls: Seq<Seq<char>>) -> Seq<Seq<char>>
    decreases ls.len(),
{
    if ls.len() == 0 {
        seq![]
    } else if names_conflict(ls.last()) {
        conflicted_paths(ls.drop_last()).push(byte_skip(ls.last(), 3))
    } else {
        conflicted_paths(ls.drop_last())
    }
}

/// Every conflict line of `status` can be cut after its third byte (the cut that would
/// otherwise panic on a character wider than one byte).
pub open spec fn conflict_lines_cuttable(status: Seq<char>) -> bool {
    forall|i: int|
        0 <= i < lines(status).len() && names_conflict(#[trigger] lines(status)[i]) ==> is_boundary(
            lines(status)[i],
            3,
        )
}

/// Whether `names_conflict` holds of `l`.
fn names_conflict_chars(l: &[char]) -> (r: bool)
    ensures
        r == names_conflict(l@),
{
    let uu: Vec<char> = vec!['U', 'U'];
    let aa: Vec<char> = vec!['A', 'A'];
    let du: Vec<char> = vec!['D', 'U'];
    let ud: Vec<char> = vec!['U', 'D'];
    assert(uu@ == seq!['U', 'U'] && aa@ == seq!['A', 'A'] && du@ == seq!['D', 'U'] && ud@ == seq![
        'U',
        'D',
    ]);
    (starts_with_chars(l, uu.as_slice()) || starts_with_chars(l, aa.as_slice())
        || starts_with_chars(l, du.as_slice()) || starts_with_chars(l, ud.as_slice()))
        && byte_len_gt(l, 3)
}

/// Whether every conflict line of `status_output` can be cut after its third byte.
pub fn conflict_status_cuttable(status_output: &str) -> (r: bool)
    ensures
        r == conflict_lines_cuttable(status_output@),
{
    let cs = chars_of(status_output);
    let ls = lines_of(cs.as_slice());
    let n = ls.len();
    let ghost all = lines(status_output@);
    for i in 0..n
        invariant
            n == ls@.len() == all.len(),
            views(ls@) == all,
            all == lines(status_output@),
            forall|k: int| 0 <= k < i && names_conflict(#[trigger] all[k]) ==> is_boundary(all[k], 3),
    {
        assert(all[i as int] == ls@[i as int]@);
        if names_conflict_chars(ls[i].as_slice()) && !is_boundary_at(ls[i].as_slice(), 3) {
            return false;
        }
    }
    true
}

/// The conflicted paths in the output of `git status --porcelain`: lines starting with
/// `UU`, `AA`, `DU` or `UD` and longer than 3 bytes, without those 3 bytes.
pub fn get_conflicted_files(status_output: &str) -> (r: Vec<String>)
    requires
        conflict_lines_cuttable(status_output@),
    ensures
        string_views(r@) == conflicted_paths(lines(status_output@)),
{
    let cs = chars_of(status_output);
    let ls = lines_of(cs.as_slice());
    let n = ls.len();
    let ghost all = lines(status_output@);
    let mut r: Vec<String> = Vec::new();
    assert(all.take(0) == Seq::<Seq<char>>::empty());
    for i in 0..n
        invariant
            n == ls@.len() == all.len(),
            views(ls@) == all,
            all == lines(status_output@),
            conflict_lines_cuttable(status_output@),
            string_views(r@) == conflicted_paths(all.take(i as int)),
    {
        assert(all.take(i + 1).drop_last() == all.take(i as int));
        assert(all.take(i + 1).last() == ls@[i as int]@);
        assert(all[i as int] == ls@[i as int]@);
        if names_conflict_chars(ls[i].as_slice()) {
            let path = skip_bytes(ls[i].as_slice(), 3);
            let s = string_of(path.as_slice());
            let ghost before = r@;
            r.push(s);
            assert(string_views(r@) == string_views(before).push(s@));
        }
    }
    assert(all.take(n as int) == all);
    r
}

// ---------------------------------------------------------------------------
// Conflict markers
// ---------------------------------------------------------------------------
/// One line of a conflict report.
pub enum ConflictLine {
    /// `Line <n>: Start of conflict` (or `Line <n>:`), `n` counting from 1.
    Start(usize),
    /// A line of the file shown as it is.
    Text(String),
    /// `Line <n>: End of conflict`.
    End(usize),
    /// An empty line.
    Blank,
    /// `... (more conflicts hidden) ...`.
    MoreHidden,
}

/// A conflict report line with its text as characters.
pub enum ConflictLineView {
    Start(nat),
    Text(Seq<char>),
    End(nat),
    Blank,
    MoreHidden,
}

impl View for ConflictLine {
    type V = ConflictLineView;

    open spec fn view(&self) -> ConflictLineView {
        match self {
            ConflictLine::Start(n) => ConflictLineView::Start(*n as nat),
            ConflictLine::Text(s) => ConflictLineView::Text(s@),
            ConflictLine::End(n) => ConflictLineView::End(*n as nat),
            ConflictLine::Blank => ConflictLineView::Blank,
            ConflictLine::MoreHidden => ConflictLineView::MoreHidden,
        }
    }
}

/// Views of report lines.
pub open spec fn report_views(v: Seq<ConflictLine>) -> Seq<ConflictLineView> {
    v.map_values(|x: ConflictLine| x@)
}

/// The marker that opens a conflict.
pub open spec fn open_marker() -> Seq<char> {
    seq!['<', '<', '<', '<', '<', '<', '<']
}

/// The marker that closes a conflict.
pub open spec fn close_marker() -> Seq<char> {
    seq!['>', '>', '>', '>', '>', '>', '>']
}

/// Where a scan of a file's lines stands.
pub struct Scan {
    pub inside: bool,
    pub shown: nat,
    pub stopped: bool,
    pub out: Seq<ConflictLineView>,
}

/// How many conflicts the detailed report shows before it stops.
pub open spec fn shown_conflicts() -> nat {
    3
}

/// The detailed report after the line `l`, number `number`: an opening marker starts a
/// conflict, lines inside one are shown, a closing marker ends it with an empty line, and
/// after the third conflict the report stops with a note that more are hidden.
pub open spec fn detailed_step(st: Scan, l: Seq<char>, number: nat) -> Scan {
    let opens = starts_with(l, open_marker());
    let inside = st.inside || opens;
    let out1 = if opens {
        st.out.push(ConflictLineView::Start(number))
    } else {
        st.out
    };
    let out2 = if inside {
        out1.push(ConflictLineView::Text(l))
    } else {
        out1
    };
    if starts_with(l, close_marker()) {
        let out3 = out2.push(ConflictLineView::End(number)).push(ConflictLineView::Blank);
        if st.shown + 1 >= shown_conflicts() {
            Scan {
                inside: false,
                shown: st.shown + 1,
                stopped: true,
                out: out3.push(ConflictLineView::MoreHidden),
            }
        } else {
            Scan { inside: false, shown: st.shown + 1, stopped: false, out: out3 }
        }
    } else {
        Scan { inside, shown: st.shown, stopped: false, out: out2 }
    }
}

/// The short report after the line `l`, number `number`: an opening marker starts the
/// conflict, lines inside it are shown, and the first closing marker ends the report.
pub open spec fn brief_step(st: Scan, l: Seq<char>, number: nat) -> Scan {
    let opens = starts_with(l, open_marker());
    let inside = st.inside || opens;
    let out1 = if opens {
        st.out.push(ConflictLineView::Start(number))
    } else {
        st.out
    };
    let out2 = if inside {
        out1.push(ConflictLineView::Text(l))
    } else {
        out1
    };
    Scan { inside, shown: st.shown, stopped: starts_with(l, close_marker()), out: out2 }
}

/// The scan before any line.
pub open spec fn scan_start() -> Scan {
    Scan { inside: false, shown: 0, stopped: false, out: seq![] }
}

/// The detailed report over the lines `ls`.
pub open spec fn detailed_scan(ls: Seq<Seq<char>>) -> Scan
    decreases ls.len(),
{
    if ls.len() == 0 {
        scan_start()
    } else {
        let st = detailed_scan(ls.drop_last());
        if st.stopped {
            st
        } else {
            detailed_step(st, ls.last(), ls.len())
        }
    }
}

/// The short report over the lines `ls`.
pub open spec fn brief_scan(ls: Seq<Seq<char>>) -> Scan
    decreases ls.len(),
{
    if ls.len() == 0 {
        scan_start()
    } else {
        let st = brief_scan(ls.drop_last());
        if st.stopped {
            st
        } else {
            brief_step(st, ls.last(), ls.len())
        }
    }
}

proof fn lemma_scan_stays_stopped(ls: Seq<Seq<char>>, k: int, detailed: bool)
    requires
        0 <= k <= ls.len(),
        (if detailed {
            detailed_scan(ls.take(k))
        } else {
            brief_scan(ls.take(k))
        }).stopped,
    ensures
        (if detailed {
            detailed_scan(ls)
        } else {
            brief_scan(ls)
        }) == (if detailed {
            detailed_scan(ls.take(k))
        } else {
            brief_scan(ls.take(k))
        }),
    decreases ls.len() - k,
{
    if k < ls.len() {
        let next = ls.take(k + 1);
        assert(next.drop_last() == ls.take(k));
        lemma_scan_stays_stopped(ls, k + 1, detailed);
    } else {
        assert(ls.take(k) == ls);
    }
}

/// The report on the conflict markers in the lines of a file. `detailed` selects the
/// report of the sync flow (every conflict up to three, with its end), otherwise the one of
/// `wally update` (the first conflict only).
pub fn conflict_report(file_lines: &Vec<String>, detailed: bool) -> (r: Vec<ConflictLine>)
    ensures
        report_views(r@) == (if detailed {
            detailed_scan(string_views(file_lines@))
        } else {
            brief_scan(string_views(file_lines@))
        }).out,
{
    let ghost ls = string_views(file_lines@);
    let open: Vec<char> = vec!['<', '<', '<', '<', '<', '<', '<'];
    let close: Vec<char> = vec!['>', '>', '>', '>', '>', '>', '>'];
    assert(open@ == open_marker() && close@ == close_marker());
    let mut out: Vec<ConflictLine> = Vec::new();
    let mut inside = false;
    let mut shown: usize = 0;
    let n = file_lines.len();
    let mut i: usize = 0;
    assert(ls.take(0) == Seq::<Seq<char>>::empty());
    while i < n
        invariant
            n == file_lines@.len() == ls.len(),
            ls == string_views(file_lines@),
            open@ == open_marker(),
            close@ == close_marker(),
            i <= n,
            shown < 3,
            ({
                let st = if detailed {
                    detailed_scan(ls.take(i as int))
                } else {
                    brief_scan(ls.take(i as int))
                };
                &&& !st.stopped
                &&& st.inside == inside
                &&& st.shown == shown
                &&& st.out == report_views(out@)
            }),
        decreases n - i,
    {
        let line = chars_of(file_lines[i].as_str());
        assert(ls.take(i + 1).drop_last() == ls.take(i as int));
        assert(ls.take(i + 1).last() == line@);
        let number = i + 1;
        let opens = starts_with_chars(line.as_slice(), open.as_slice());
        let closes = starts_with_chars(line.as_slice(), close.as_slice());
        let ghost before = out@;
        if opens {
            inside = true;
            out.push(ConflictLine::Start(number));
        }
        if inside {
            out.push(ConflictLine::Text(string_of(line.as_slice())));
        }
        let ghost mid = out@;
        assert(report_views(mid) == {
            let o1 = if opens {
                report_views(before).push(ConflictLineView::Start(number as nat))
            } else {
                report_views(before)
            };
            if inside {
                o1.push(ConflictLineView::Text(line@))
            } else {
                o1
            }
        });
        if closes {
            if detailed {
                inside = false;
                out.push(ConflictLine::End(number));
                out.push(ConflictLine::Blank);
                shown = shown + 1;
                if shown >= 3 {
                    out.push(ConflictLine::MoreHidden);
                    assert(report_views(out@) == detailed_scan(ls.take(i + 1)).out);
                    proof {
                        lemma_scan_stays_stopped(ls, i + 1, detailed);
                    }
                    return out;
                }
                assert(report_views(out@) == report_views(mid).push(
                    ConflictLineView::End(number as nat),
                ).push(ConflictLineView::Blank));
            } else {
                proof {
                    lemma_scan_stays_stopped(ls, i + 1, detailed);
                }
                return out;
            }
        }
        i = i + 1;
    }
    assert(ls.take(n as int) == ls);
    out
}

/// The conflict lines of `git status --porcelain` are those whose status is `UU`, `AA`,
/// `DU` or `UD` and that go on past the 3-byte `XY ` prefix; the paths reported are those
/// lines, in order, each without that prefix; the markers are seven `<` and seven `>`, and
/// the detailed report shows three conflicts.
pub proof fn lemma_conflict_lines(ls: Seq<Seq<char>>, l: Seq<char>)
    ensures
        names_conflict(l) <==> (starts_with(l, "UU"@) || starts_with(l, "AA"@) || starts_with(l, "DU"@)
            || starts_with(l, "UD"@)) && byte_len(l) > 3,
        conflicted_paths(ls) == ls.filter(|x: Seq<char>| names_conflict(x)).map_values(
            |x: Seq<char>| byte_skip(x, 3),
        ),
        open_marker() == "<<<<<<<"@,
        close_marker() == ">>>>>>>"@,
        shown_conflicts() == 3,
    decreases ls.len(),
{
    reveal_strlit("UU");
    reveal_strlit("AA");
    reveal_strlit("DU");
    reveal_strlit("UD");
    reveal_strlit("<<<<<<<");
    reveal_strlit(">>>>>>>");
    assert(seq!['U', 'U'] =~= "UU"@);
    assert(seq!['A', 'A'] =~= "AA"@);
    assert(seq!['D', 'U'] =~= "DU"@);
    assert(seq!['U', 'D'] =~= "UD"@);
    assert(open_marker() =~= "<<<<<<<"@);
    assert(close_marker() =~= ">>>>>>>"@);
    reveal(Seq::filter);
    if ls.len() > 0 {
        lemma_conflict_lines(ls.drop_last(), l);
        let f = ls.drop_last().filter(|x: Seq<char>| names_conflict(x));
        assert(f.push(ls.last()).map_values(|x: Seq<char>| byte_skip(x, 3)) =~= f.map_values(
            |x: Seq<char>| byte_skip(x, 3),
        ).push(byte_skip(ls.last(), 3)));
    } else {
        assert(ls.filter(|x: Seq<char>| names_conflict(x)).map_values(|x: Seq<char>| byte_skip(x, 3))
            =~= Seq::<Seq<char>>::empty());
    }
}

/// Every line of a report points into the file it reports on: a conflict start names a
/// line that opens a conflict, an end names a line that closes one, and shown text is a
/// line of the file.
pub open spec fn report_points_into(ls: Seq<Seq<char>>, out: Seq<ConflictLineView>) -> bool {
    forall|k: int|
        0 <= k < out.len() ==> match #[trigger] out[k] {
            ConflictLineView::Start(n) => 1 <= n <= ls.len() && starts_with(ls[n - 1], open_marker()),
            ConflictLineView::End(n) => 1 <= n <= ls.len() && starts_with(ls[n - 1], close_marker()),
            ConflictLineView::Text(t) => ls.contains(t),
            _ => true,
        }
}

proof fn lemma_points_into_extend(ls: Seq<Seq<char>>, out: Seq<ConflictLineView>)
    requires
        ls.len() > 0,
        report_points_into(ls.drop_last(), out),
    ensures
        report_points_into(ls, out),
{
    assert forall|k: int| 0 <= k < out.len() implies match #[trigger] out[k] {
        ConflictLineView::Start(n) => 1 <= n <= ls.len() && starts_with(ls[n - 1], open_marker()),
        ConflictLineView::End(n) => 1 <= n <= ls.len() && starts_with(ls[n - 1], close_marker()),
        ConflictLineView::Text(t) => ls.contains(t),
        _ => true,
    } by {
        match out[k] {
            ConflictLineView::Start(n) => {
                assert(ls[n - 1] == ls.drop_last()[n - 1]);
            },
            ConflictLineView::End(n) => {
                assert(ls[n - 1] == ls.drop_last()[n - 1]);
            },
            ConflictLineView::Text(t) => {
                let q = choose|q: int| 0 <= q < ls.drop_last().len() && ls.drop_last()[q] == t;
                assert(ls[q] == t);
            },
            _ => {},
        }
    }
}

/// Both reports point into the file they report on (see `report_points_into`).
pub proof fn lemma_report_points_into(ls: Seq<Seq<char>>)
    ensures
        report_points_into(ls, detailed_scan(ls).out),
        report_points_into(ls, brief_scan(ls).out),
    decreases ls.len(),
{
    if ls.len() > 0 {
        let pre = ls.drop_last();
        lemma_report_points_into(pre);
        lemma_points_into_extend(ls, detailed_scan(pre).out);
        lemma_points_into_extend(ls, brief_scan(pre).out);
        let l = ls.last();
        let n = ls.len();
        assert(ls[n - 1] == l);
        assert(ls.contains(l));
        let d = detailed_scan(pre);
        if !d.stopped {
            let out = detailed_step(d, l, n).out;
            assert forall|k: int| 0 <= k < out.len() implies match #[trigger] out[k] {
                ConflictLineView::Start(m) => 1 <= m <= ls.len() && starts_with(ls[m - 1], open_marker()),
                ConflictLineView::End(m) => 1 <= m <= ls.len() && starts_with(ls[m - 1], close_marker()),
                ConflictLineView::Text(t) => ls.contains(t),
                _ => true,
            } by {
                if k < d.out.len() {
                    assert(out[k] == d.out[k]);
                }
            }
        }
        let b = brief_scan(pre);
        if !b.stopped {
            let out = brief_step(b, l, n).out;
            assert forall|k: int| 0 <= k < out.len() implies match #[trigger] out[k] {
                ConflictLineView::Start(m) => 1 <= m <= ls.len() && starts_with(ls[m - 1], open_marker()),
                ConflictLineView::End(m) => 1 <= m <= ls.len() && starts_with(ls[m - 1], close_marker()),
                ConflictLineView::Text(t) => ls.contains(t),
                _ => true,
            } by {
                if k < b.out.len() {
                    assert(out[k] == b.out[k]);
                }
            }
        }
    }
}

} // verus!
