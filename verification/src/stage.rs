//! `wally add`: the interactive list of changed files, with selection and diff previews.
use vstd::prelude::*;
use crate::text::{
    byte_len, byte_len_gt, byte_skip, byte_take, chars_eq, chars_of, is_boundary, is_boundary_at,
    lines, lines_of, skip_bytes, string_of, string_views, take_bytes, trim, trim_chars, views,
};

verus! {

// ---------------------------------------------------------------------------
// Entries
// ---------------------------------------------------------------------------
/// A changed file in the list.
pub struct FileEntry {
    pub path: String,
    /// The two-letter porcelain status, such as `M ` or `??`.
    pub status: String,
    pub selected: bool,
    /// The diff preview is shown below the file.
    pub expanded: bool,
    /// The lines of the diff preview, once fetched.
    pub diff_cache: Vec<String>,
}

/// A file entry with its text as characters.
pub struct EntryView {
    pub path: Seq<char>,
    pub status: Seq<char>,
    pub selected: bool,
    pub expanded: bool,
    pub diff: Seq<Seq<char>>,
}

impl View for FileEntry {
    type V = EntryView;

    open spec fn view(&self) -> EntryView {
        EntryView {
            path: self.path@,
            status: self.status@,
            selected: self.selected,
            expanded: self.expanded,
            diff: string_views(self.diff_cache@),
        }
    }
}

/// Views of entries.
pub open spec fn entry_views(v: Seq<FileEntry>) -> Seq<EntryView> {
    v.map_values(|e: FileEntry| e@)
}

/// A status line that names a file: longer than 3 bytes.
pub open spec fn is_entry_line(l: Seq<char>) -> bool {
    byte_len(l) > 3
}

/// The entries listed by `git status --porcelain`: for each line longer than 3 bytes, its
/// first 2 bytes as the status and what follows its first 3 bytes as the path; none is
/// selected or expanded at first.
pub open spec fn status_entries(ls: Seq<Seq<char>>) -> Seq<EntryView>
    decreases ls.len(),
{
    if ls.len() == 0 {
        seq![]
    } else if is_entry_line(ls.last()) {
        status_entries(ls.drop_last()).push(
            EntryView {
                path: byte_skip(ls.last(), 3),
                status: byte_take(ls.last(), 2),
                selected: false,
                expanded: false,
                diff: seq![],
            },
        )
    } else {
        status_entries(ls.drop_last())
    }
}

/// Every file line of `status` can be cut after its second and third bytes (the cuts that
/// would otherwise panic on a character wider than one byte).
pub open spec fn status_lines_cuttable(status: Seq<char>) -> bool {
    forall|i: int|
        0 <= i < lines(status).len() && is_entry_line(#[trigger] lines(status)[i]) ==> is_boundary(
            lines(status)[i],
            2,
        ) && is_boundary(lines(status)[i], 3)
}

/// Whether every file line of `status_output` can be cut after its second and third bytes.
pub fn status_output_cuttable(status_output: &str) -> (r: bool)
    ensures
        r == status_lines_cuttable(status_output@),
{
    let cs = chars_of(status_output);
    let ls = lines_of(cs.as_slice());
    let n = ls.len();
    let ghost all = lines(status_output@);
    for i in 0..n
        invariant
            n == ls@.len() == all.len(),
            views(ls@) == all,
            all == lines(status_output@),
            forall|k: int|
                0 <= k < i && is_entry_line(#[trigger] all[k]) ==> is_boundary(all[k], 2)
                    && is_boundary(all[k], 3),
    {
        assert(all[i as int] == ls@[i as int]@);
        let l = ls[i].as_slice();
        if byte_len_gt(l, 3) && (!is_boundary_at(l, 2) || !is_boundary_at(l, 3)) {
            return false;
        }
    }
    true
}

/// The entries listed in the output of `git status --porcelain`.
pub fn parse_status_entries(status_output: &str) -> (r: Vec<FileEntry>)
    requires
        status_lines_cuttable(status_output@),
    ensures
        entry_views(r@) == status_entries(lines(status_output@)),
{
    let cs = chars_of(status_output);
    let ls = lines_of(cs.as_slice());
    let n = ls.len();
    let ghost all = lines(status_output@);
    let mut r: Vec<FileEntry> = Vec::new();
    assert(all.take(0) == Seq::<Seq<char>>::empty());
    for i in 0..n
        invariant
            n == ls@.len() == all.len(),
            views(ls@) == all,
            all == lines(status_output@),
            status_lines_cuttable(status_output@),
            entry_views(r@) == status_entries(all.take(i as int)),
    {
        assert(all.take(i + 1).drop_last() == all.take(i as int));
        assert(all.take(i + 1).last() == ls@[i as int]@);
        assert(all[i as int] == ls@[i as int]@);
        let l = ls[i].as_slice();
        if byte_len_gt(l, 3) {
            let status = take_bytes(l, 2);
            let path = skip_bytes(l, 3);
            let e = FileEntry {
                path: string_of(path.as_slice()),
                status: string_of(status.as_slice()),
                selected: false,
                expanded: false,
                diff_cache: Vec::new(),
            };
            let ghost before = r@;
            assert(string_views(e.diff_cache@) == Seq::<Seq<char>>::empty());
            assert(is_entry_line(all[i as int]));
            r.push(e);
            assert(entry_views(r@) == entry_views(before).push(e@));
        }
    }
    assert(all.take(n as int) == all);
    r
}

// ---------------------------------------------------------------------------
// Screen lines
// ---------------------------------------------------------------------------
/// A line of the list: a file, or line `d` of the diff preview of file `f`.
#[derive(PartialEq, Eq, Structural, Clone, Copy, Debug)]
pub enum RenderLine {
    FileHeader(usize),
    DiffLine(usize, usize),
}

/// The file a line belongs to.
pub open spec fn line_file(l: RenderLine) -> int {
    match l {
        RenderLine::FileHeader(f) => f as int,
        RenderLine::DiffLine(f, _) => f as int,
    }
}

/// The lines of entry `i`: its header, then its diff lines when expanded.
pub open spec fn entry_block(i: int, e: EntryView) -> Seq<RenderLine> {
    seq![RenderLine::FileHeader(i as usize)] + if e.expanded {
        Seq::new(e.diff.len(), |d: int| RenderLine::DiffLine(i as usize, d as usize))
    } else {
        seq![]
    }
}

/// All lines of the list, file by file.
pub open spec fn render_lines(es: Seq<EntryView>) -> Seq<RenderLine>
    decreases es.len(),
{
    if es.len() == 0 {
        seq![]
    } else {
        render_lines(es.drop_last()) + entry_block(es.len() - 1, es.last())
    }
}

proof fn lemma_render_lines(es: Seq<EntryView>)
    ensures
        render_lines(es).len() >= es.len(),
        forall|k: int|
            0 <= k < render_lines(es).len() ==> 0 <= #[trigger] line_file(render_lines(es)[k]) < es.len(),
        es.len() > 0 ==> render_lines(es).len() > 0,
    decreases es.len(),
{
    if es.len() > 0 {
        lemma_render_lines(es.drop_last());
        let pre = render_lines(es.drop_last());
        let b = entry_block(es.len() - 1, es.last());
        assert forall|k: int| 0 <= k < render_lines(es).len() implies 0 <= #[trigger] line_file(
            render_lines(es)[k],
        ) < es.len() by {
            if k < pre.len() {
                assert(render_lines(es)[k] == pre[k]);
            } else {
                assert(render_lines(es)[k] == b[k - pre.len()]);
            }
        }
    }
}

/// The lines of the list.
pub fn build_render_lines(entries: &Vec<FileEntry>) -> (r: Vec<RenderLine>)
    requires
        entries@.len() < usize::MAX,
    ensures
        r@ == render_lines(entry_views(entries@)),
{
    let mut r: Vec<RenderLine> = Vec::new();
    let n = entries.len();
    let ghost es = entry_views(entries@);
    assert(es.take(0) == Seq::<EntryView>::empty());
    for f in 0..n
        invariant
            n == entries@.len() == es.len(),
            es == entry_views(entries@),
            r@ == render_lines(es.take(f as int)),
    {
        assert(es.take(f + 1).drop_last() == es.take(f as int));
        assert(es.take(f + 1).last() == entries@[f as int]@);
        let ghost before = r@;
        r.push(RenderLine::FileHeader(f));
        if entries[f].expanded {
            let m = entries[f].diff_cache.len();
            for d in 0..m
                invariant
                    m == entries@[f as int].diff_cache@.len(),
                    r@ == before + seq![RenderLine::FileHeader(f)] + Seq::new(
                        d as nat,
                        |k: int| RenderLine::DiffLine(f, k as usize),
                    ),
            {
                r.push(RenderLine::DiffLine(f, d));
                assert(before + seq![RenderLine::FileHeader(f)] + Seq::new(
                    (d + 1) as nat,
                    |k: int| RenderLine::DiffLine(f, k as usize),
                ) == (before + seq![RenderLine::FileHeader(f)] + Seq::new(
                    d as nat,
                    |k: int| RenderLine::DiffLine(f, k as usize),
                )).push(RenderLine::DiffLine(f, d)));
            }
            assert(r@ == before + entry_block(f as int, es[f as int]));
        } else {
            assert(r@ == before + entry_block(f as int, es[f as int]));
        }
    }
    assert(es.take(n as int) == es);
    r
}

// ---------------------------------------------------------------------------
// The interactive list
// ---------------------------------------------------------------------------
/// A key the list reacts to.
#[derive(PartialEq, Eq, Structural, Clone, Copy, Debug)]
pub enum StageKey {
    Up,
    Down,
    Left,
    Right,
    Enter,
    Escape,
    Char(char),
    Other,
}

/// What the list asks of the terminal after a key.
#[derive(PartialEq, Eq, Structural, Clone, Copy, Debug)]
pub enum StageAction {
    /// Draw the list again and read the next key.
    Redraw,
    /// Fetch the diff preview of this file, hand it to `set_diff`, then draw again.
    FetchDiff(usize),
    /// Stage the selected files.
    Finish,
    /// "Operation cancelled."
    Cancel,
}

/// The list of changed files, with the line under the cursor and the first line on screen.
pub struct StageView {
    pub entries: Vec<FileEntry>,
    pub cursor_line: usize,
    pub viewport_top: usize,
}

/// The number of list lines on a terminal of `term_height` rows (four rows hold the help).
pub open spec fn display_rows(term_height: u16) -> nat {
    if term_height >= 4 {
        (term_height - 4) as nat
    } else {
        0
    }
}

/// Every entry is selected.
pub open spec fn all_selected(es: Seq<EntryView>) -> bool {
    forall|i: int| 0 <= i < es.len() ==> #[trigger] es[i].selected
}

impl StageView {
    /// The list at the start: the cursor and the view on the first line.
    pub fn new(entries: Vec<FileEntry>) -> (r: StageView)
        ensures
            entry_views(r.entries@) == entry_views(entries@),
            r.cursor_line == 0,
            r.viewport_top == 0,
    {
        StageView { entries, cursor_line: 0, viewport_top: 0 }
    }

    /// The lines of the list as they stand.
    pub open spec fn lines_view(&self) -> Seq<RenderLine> {
        render_lines(entry_views(self.entries@))
    }

    /// The cursor is on a line of the list (or at 0 when the list has none).
    pub open spec fn is_laid_out(&self) -> bool {
        if self.lines_view().len() == 0 {
            self.cursor_line == 0
        } else {
            self.cursor_line < self.lines_view().len()
        }
    }

    /// Before drawing: keeps the cursor on the list (on its last line when the list
    /// shrank) and scrolls so that the cursor line is on screen. Returns the lines of the
    /// list and the end (exclusive) of the lines on screen, which start at `viewport_top`.
    pub fn layout(&mut self, term_height: u16) -> (r: (Vec<RenderLine>, usize))
        requires
            old(self).entries@.len() < usize::MAX,
            old(self).viewport_top + display_rows(term_height) <= usize::MAX,
        ensures
            entry_views(final(self).entries@) == entry_views(old(self).entries@),
            r.0@ == final(self).lines_view(),
            final(self).is_laid_out(),
            final(self).cursor_line == if old(self).cursor_line >= r.0@.len() {
                if r.0@.len() == 0 {
                    0
                } else {
                    r.0@.len() - 1
                }
            } else {
                old(self).cursor_line as int
            },
            ({
                let h = display_rows(term_height);
                let c = final(self).cursor_line;
                let t = old(self).viewport_top;
                final(self).viewport_top == if c < t {
                    c as int
                } else if c >= t + h {
                    c - h + 1
                } else {
                    t as int
                }
            }),
            display_rows(term_height) > 0 ==> final(self).viewport_top <= final(self).cursor_line
                < final(self).viewport_top + display_rows(term_height),
            r.1 == if final(self).viewport_top + display_rows(term_height) < r.0@.len() {
                final(self).viewport_top + display_rows(term_height)
            } else {
                r.0@.len() as int
            },
    {
        let h: usize = if term_height >= 4 {
            (term_height - 4) as usize
        } else {
            0
        };
        let lines = build_render_lines(&self.entries);
        proof {
            lemma_render_lines(entry_views(self.entries@));
        }
        if self.cursor_line >= lines.len() {
            self.cursor_line = if lines.len() == 0 {
                0
            } else {
                lines.len() - 1
            };
        }
        if self.cursor_line < self.viewport_top {
            self.viewport_top = self.cursor_line;
        } else if self.cursor_line >= self.viewport_top + h {
            self.viewport_top = self.cursor_line - h + 1;
        }
        let end = if self.viewport_top + h < lines.len() {
            self.viewport_top + h
        } else {
            lines.len()
        };
        (lines, end)
    }

    /// Reacts to `key`: moves the cursor, selects the file under it (space), selects all
    /// files or none (`a`), expands or hides its diff (right, left), finishes (enter) or
    /// cancels (escape).
    pub fn handle_key(&mut self, key: StageKey) -> (r: StageAction)
        requires
            old(self).is_laid_out(),
            old(self).lines_view().len() == 0 ==> (key == StageKey::Up || key == StageKey::Enter
                || key == StageKey::Escape || key == StageKey::Other || (key is Char && key->Char_0
                != ' ')),
            old(self).entries@.len() < usize::MAX,
        ensures
            entry_views(final(self).entries@).len() == entry_views(old(self).entries@).len(),
            final(self).viewport_top == old(self).viewport_top,
            forall|i: int|
                0 <= i < entry_views(old(self).entries@).len() ==> (#[trigger] entry_views(final(self).entries@)[i]).path == entry_views(old(self).entries@)[i].path && entry_views(final(self).entries@)[i].status == entry_views(old(self).entries@)[i].status,
            key == StageKey::Up ==> r == StageAction::Redraw && final(self).entries@ == old(self).entries@ && final(self).cursor_line == if old(self).cursor_line > 0 {
                old(self).cursor_line - 1
            } else {
                0
            },
            key == StageKey::Down ==> r == StageAction::Redraw && final(self).entries@ == old(self).entries@ && final(self).cursor_line == if old(self).cursor_line < old(self).lines_view().len() - 1 {
                old(self).cursor_line + 1
            } else {
                old(self).cursor_line as int
            },
            key == StageKey::Char(' ') ==> ({
                let es0 = entry_views(old(self).entries@);
                let f = line_file(old(self).lines_view()[old(self).cursor_line as int]);
                &&& r == StageAction::Redraw
                &&& final(self).cursor_line == old(self).cursor_line
                &&& entry_views(final(self).entries@) == es0.update(
                    f,
                    (EntryView { selected: !es0[f].selected, ..es0[f] }),
                )
            }),
            key == StageKey::Char('a') ==> ({
                let es0 = entry_views(old(self).entries@);
                &&& r == StageAction::Redraw
                &&& final(self).cursor_line == old(self).cursor_line
                &&& forall|i: int|
                    0 <= i < es0.len() ==> #[trigger] entry_views(final(self).entries@)[i] == (EntryView {
                        selected: !all_selected(es0),
                        ..es0[i]
                    })
            }),
            key == StageKey::Right ==> ({
                let es0 = entry_views(old(self).entries@);
                let l = old(self).lines_view()[old(self).cursor_line as int];
                &&& final(self).cursor_line == old(self).cursor_line
                &&& if l is FileHeader && !es0[line_file(l)].expanded {
                    &&& entry_views(final(self).entries@) == es0.update(
                        line_file(l),
                        (EntryView { expanded: true, ..es0[line_file(l)] }),
                    )
                    &&& r == if es0[line_file(l)].diff.len() == 0 {
                        StageAction::FetchDiff(line_file(l) as usize)
                    } else {
                        StageAction::Redraw
                    }
                } else {
                    final(self).entries@ == old(self).entries@ && r == StageAction::Redraw
                }
            }),
            key == StageKey::Left ==> ({
                let es0 = entry_views(old(self).entries@);
                let f = line_file(old(self).lines_view()[old(self).cursor_line as int]);
                &&& r == StageAction::Redraw
                &&& final(self).cursor_line == old(self).cursor_line
                &&& entry_views(final(self).entries@) == es0.update(
                    f,
                    (EntryView { expanded: false, ..es0[f] }),
                )
            }),
            key == StageKey::Enter ==> r == StageAction::Finish && final(self).entries@ == old(self).entries@ && final(self).cursor_line == old(self).cursor_line,
            key == StageKey::Escape ==> r == StageAction::Cancel && final(self).entries@ == old(self).entries@ && final(self).cursor_line == old(self).cursor_line,
            (key == StageKey::Other || (key is Char && key->Char_0 != ' ' && key->Char_0 != 'a'))
                ==> r == StageAction::Redraw && final(self).entries@ == old(self).entries@ && final(self).cursor_line == old(self).cursor_line,
    {
        let lines = build_render_lines(&self.entries);
        let ghost es0 = entry_views(self.entries@);
        proof {
            lemma_render_lines(es0);
        }
        match key {
            StageKey::Up => {
                if self.cursor_line > 0 {
                    self.cursor_line = self.cursor_line - 1;
                }
                StageAction::Redraw
            },
            StageKey::Down => {
                if self.cursor_line < lines.len() - 1 {
                    self.cursor_line = self.cursor_line + 1;
                }
                StageAction::Redraw
            },
            StageKey::Char(' ') => {
                let f = match lines[self.cursor_line] {
                    RenderLine::FileHeader(i) => i,
                    RenderLine::DiffLine(i, _) => i,
                };
                assert(f == line_file(lines@[self.cursor_line as int]));
                let v = !self.entries[f].selected;
                self.set_selected(f, v);
                StageAction::Redraw
            },
            StageKey::Char('a') => {
                let mut all = true;
                let n = self.entries.len();
                for i in 0..n
                    invariant
                        n == self.entries@.len(),
                        es0 == entry_views(self.entries@),
                        all == forall|k: int| 0 <= k < i ==> #[trigger] es0[k].selected,
                {
                    assert(es0[i as int].selected == self.entries@[i as int].selected);
                    if !self.entries[i].selected {
                        all = false;
                    }
                }
                let ghost c0 = self.cursor_line;
                let ghost t0 = self.viewport_top;
                for i in 0..n
                    invariant
                        n == self.entries@.len() == es0.len(),
                        self.cursor_line == c0,
                        self.viewport_top == t0,
                        all == all_selected(es0),
                        forall|k: int|
                            0 <= k < i ==> #[trigger] entry_views(self.entries@)[k] == (EntryView {
                                selected: !all,
                                ..es0[k]
                            }),
                        forall|k: int|
                            i <= k < n ==> #[trigger] entry_views(self.entries@)[k] == es0[k],
                {
                    self.set_selected(i, !all);
                }
                StageAction::Redraw
            },
            StageKey::Right => {
                match lines[self.cursor_line] {
                    RenderLine::FileHeader(f) => {
                        if !self.entries[f].expanded {
                            let need = self.entries[f].diff_cache.len() == 0;
                            self.set_expanded(f, true);
                            if need {
                                StageAction::FetchDiff(f)
                            } else {
                                StageAction::Redraw
                            }
                        } else {
                            StageAction::Redraw
                        }
                    },
                    RenderLine::DiffLine(_, _) => StageAction::Redraw,
                }
            },
            StageKey::Left => {
                let f = match lines[self.cursor_line] {
                    RenderLine::FileHeader(i) => i,
                    RenderLine::DiffLine(i, _) => i,
                };
                assert(f == line_file(lines@[self.cursor_line as int]));
                self.set_expanded(f, false);
                StageAction::Redraw
            },
            StageKey::Enter => StageAction::Finish,
            StageKey::Escape => StageAction::Cancel,
            _ => StageAction::Redraw,
        }
    }

    /// Marks entry `f` selected or not.
    fn set_selected(&mut self, f: usize, v: bool)
        requires
            f < old(self).entries@.len(),
        ensures
            entry_views(final(self).entries@) == entry_views(old(self).entries@).update(
                f as int,
                (EntryView { selected: v, ..entry_views(old(self).entries@)[f as int] }),
            ),
            final(self).cursor_line == old(self).cursor_line,
            final(self).viewport_top == old(self).viewport_top,
            final(self).entries@.len() == old(self).entries@.len(),
    {
        let mut entries: Vec<FileEntry> = Vec::new();
        std::mem::swap(&mut entries, &mut self.entries);
        let ghost before = entries@;
        let mut e = entries.remove(f);
        e.selected = v;
        entries.insert(f, e);
        assert(entry_views(entries@) =~= entry_views(before).update(
            f as int,
            (EntryView { selected: v, ..entry_views(before)[f as int] }),
        ));
        self.entries = entries;
    }

    /// Marks entry `f` expanded or not.
    fn set_expanded(&mut self, f: usize, v: bool)
        requires
            f < old(self).entries@.len(),
        ensures
            entry_views(final(self).entries@) == entry_views(old(self).entries@).update(
                f as int,
                (EntryView { expanded: v, ..entry_views(old(self).entries@)[f as int] }),
            ),
            final(self).cursor_line == old(self).cursor_line,
            final(self).viewport_top == old(self).viewport_top,
            final(self).entries@.len() == old(self).entries@.len(),
    {
        let mut entries: Vec<FileEntry> = Vec::new();
        std::mem::swap(&mut entries, &mut self.entries);
        let ghost before = entries@;
        let mut e = entries.remove(f);
        e.expanded = v;
        entries.insert(f, e);
        assert(entry_views(entries@) =~= entry_views(before).update(
            f as int,
            (EntryView { expanded: v, ..entry_views(before)[f as int] }),
        ));
        self.entries = entries;
    }

    /// Stores the fetched diff preview of entry `f`.
    pub fn set_diff(&mut self, f: usize, diff: Vec<String>)
        requires
            f < old(self).entries@.len(),
        ensures
            entry_views(final(self).entries@) == entry_views(old(self).entries@).update(
                f as int,
                (EntryView { diff: string_views(diff@), ..entry_views(old(self).entries@)[f as int] }),
            ),
            final(self).cursor_line == old(self).cursor_line,
            final(self).viewport_top == old(self).viewport_top,
            final(self).entries@.len() == old(self).entries@.len(),
    {
        let mut entries: Vec<FileEntry> = Vec::new();
        std::mem::swap(&mut entries, &mut self.entries);
        let ghost before = entries@;
        let mut e = entries.remove(f);
        e.diff_cache = diff;
        entries.insert(f, e);
        assert(entry_views(entries@) =~= entry_views(before).update(
            f as int,
            (EntryView { diff: string_views(diff@), ..entry_views(before)[f as int] }),
        ));
        self.entries = entries;
    }

    /// The paths of the selected files, in list order.
    pub fn selected_paths(&self) -> (r: Vec<String>)
        ensures
            string_views(r@) == selected_of(entry_views(self.entries@)),
            string_views(r@) == entry_views(self.entries@).filter(|e: EntryView| e.selected).map_values(
                |e: EntryView| e.path,
            ),
    {
        let mut r: Vec<String> = Vec::new();
        let n = self.entries.len();
        let ghost es = entry_views(self.entries@);
        assert(es.take(0) == Seq::<EntryView>::empty());
        for i in 0..n
            invariant
                n == self.entries@.len() == es.len(),
                es == entry_views(self.entries@),
                string_views(r@) == selected_of(es.take(i as int)),
        {
            assert(es.take(i + 1).drop_last() == es.take(i as int));
            assert(es.take(i + 1).last() == self.entries@[i as int]@);
            if self.entries[i].selected {
                let p = string_of(chars_of(self.entries[i].path.as_str()).as_slice());
                let ghost before = r@;
                r.push(p);
                assert(string_views(r@) == string_views(before).push(p@));
            }
        }
        assert(es.take(n as int) == es);
        proof {
            lemma_selected_are_the_selected_entries(es);
        }
        r
    }
}

/// The paths of the selected entries, in order.
pub open spec fn selected_of(es: Seq<EntryView>) -> Seq<Seq<char>>
    decreases es.len(),
{
    if es.len() == 0 {
        seq![]
    } else if es.last().selected {
        selected_of(es.drop_last()).push(es.last().path)
    } else {
        selected_of(es.drop_last())
    }
}

/// What `Enter` stages: the paths of exactly the selected entries, each once, in list
/// order (the entries kept by the selection flag, then their paths).
pub proof fn lemma_selected_are_the_selected_entries(es: Seq<EntryView>)
    ensures
        selected_of(es) == es.filter(|e: EntryView| e.selected).map_values(|e: EntryView| e.path),
    decreases es.len(),
{
    reveal(Seq::filter);
    if es.len() > 0 {
        lemma_selected_are_the_selected_entries(es.drop_last());
        let f = es.drop_last().filter(|e: EntryView| e.selected);
        assert(es.filter(|e: EntryView| e.selected) == if es.last().selected {
            f.push(es.last())
        } else {
            f
        });
        assert(f.push(es.last()).map_values(|e: EntryView| e.path) =~= f.map_values(|e: EntryView| e.path).push(
            es.last().path,
        ));
    } else {
        assert(es.filter(|e: EntryView| e.selected).map_values(|e: EntryView| e.path) =~= Seq::<
            Seq<char>,
        >::empty());
    }
}

/// A selected entry's path is staged, and each staged path is that of a selected entry
/// (the law above, read entry by entry); as many paths are staged as entries are selected.
pub proof fn lemma_selected_membership(es: Seq<EntryView>, i: int)
    requires
        0 <= i < es.len(),
        es[i].selected,
    ensures
        selected_of(es).contains(es[i].path),
        selected_of(es).len() <= es.len(),
    decreases es.len(),
{
    if i < es.len() - 1 {
        lemma_selected_membership(es.drop_last(), i);
        let s = selected_of(es.drop_last());
        let k = choose|k: int| 0 <= k < s.len() && s[k] == es[i].path;
        if es.last().selected {
            assert(s.push(es.last().path)[k] == es[i].path);
        }
    } else {
        assert(selected_of(es)[selected_of(es).len() - 1] == es[i].path);
    }
    lemma_selected_len(es);
}

proof fn lemma_selected_len(es: Seq<EntryView>)
    ensures
        selected_of(es).len() <= es.len(),
    decreases es.len(),
{
    if es.len() > 0 {
        lemma_selected_len(es.drop_last());
    }
}

/// The number of list lines on a terminal of `term_height` rows.
pub fn display_height(term_height: u16) -> (r: usize)
    ensures
        r == display_rows(term_height),
{
    if term_height >= 4 {
        (term_height - 4) as usize
    } else {
        0
    }
}

/// The arguments that stage `paths`: `add` followed by the paths.
pub fn add_args(paths: &Vec<String>) -> (r: Vec<String>)
    ensures
        string_views(r@) == seq!["add"@] + string_views(paths@),
{
    let mut r: Vec<String> = Vec::new();
    r.push(String::from_str("add"));
    let n = paths.len();
    for i in 0..n
        invariant
            n == paths@.len(),
            string_views(r@) == seq!["add"@] + string_views(paths@).take(i as int),
    {
        let p = string_of(chars_of(paths[i].as_str()).as_slice());
        let ghost before = r@;
        r.push(p);
        assert(string_views(r@) == string_views(before).push(p@));
        assert(string_views(paths@).take(i + 1) == string_views(paths@).take(i as int).push(paths@[i as int]@));
    }
    assert(string_views(paths@).take(n as int) == string_views(paths@));
    r
}

/// The colour a status is shown in.
#[derive(PartialEq, Eq, Structural, Clone, Copy, Debug)]
pub enum StatusColor {
    Yellow,
    Green,
    Red,
    Cyan,
}

/// The colour of a trimmed status: modified yellow, added or untracked green, deleted red,
/// anything else cyan.
pub open spec fn color_of(status: Seq<char>) -> StatusColor {
    let t = trim(status);
    if t == seq!['M'] {
        StatusColor::Yellow
    } else if t == seq!['A'] || t == seq!['?', '?'] {
        StatusColor::Green
    } else if t == seq!['D'] {
        StatusColor::Red
    } else {
        StatusColor::Cyan
    }
}

/// The colour a status is shown in.
pub fn status_color(status: &str) -> (r: StatusColor)
    ensures
        r == color_of(status@),
{
    let t = trim_chars(chars_of(status).as_slice());
    let m: Vec<char> = vec!['M'];
    let a: Vec<char> = vec!['A'];
    let u: Vec<char> = vec!['?', '?'];
    let d: Vec<char> = vec!['D'];
    assert(m@ == seq!['M'] && a@ == seq!['A'] && u@ == seq!['?', '?'] && d@ == seq!['D']);
    if chars_eq(t.as_slice(), m.as_slice()) {
        StatusColor::Yellow
    } else if chars_eq(t.as_slice(), a.as_slice()) || chars_eq(t.as_slice(), u.as_slice()) {
        StatusColor::Green
    } else if chars_eq(t.as_slice(), d.as_slice()) {
        StatusColor::Red
    } else {
        StatusColor::Cyan
    }
}

/// The lines of a diff preview: the lines of `git diff` output, or the single line
/// `placeholder` when the output is blank (a new file, or no text diff).
pub fn diff_display_lines(diff_output: &str, placeholder: &str) -> (r: Vec<String>)
    ensures
        string_views(r@) == if trim(diff_output@).len() == 0 {
            seq![placeholder@]
        } else {
            lines(diff_output@)
        },
{
    let cs = chars_of(diff_output);
    let t = trim_chars(cs.as_slice());
    let mut r: Vec<String> = Vec::new();
    if t.len() == 0 {
        r.push(string_of(chars_of(placeholder).as_slice()));
        assert(string_views(r@) == seq![placeholder@]);
        return r;
    }
    let ls = lines_of(cs.as_slice());
    let n = ls.len();
    for i in 0..n
        invariant
            n == ls@.len(),
            string_views(r@) == views(ls@).take(i as int),
    {
        let ghost before = r@;
        r.push(string_of(ls[i].as_slice()));
        assert(string_views(r@) == string_views(before).push(ls@[i as int]@));
        assert(views(ls@).take(i + 1) == views(ls@).take(i as int).push(ls@[i as int]@));
    }
    assert(views(ls@).take(n as int) == views(ls@));
    r
}

/// The list after space on a line of file `f`.
pub open spec fn toggled(es: Seq<EntryView>, f: int) -> Seq<EntryView> {
    es.update(f, (EntryView { selected: !es[f].selected, ..es[f] }))
}

/// The list after `a`.
pub open spec fn toggled_all(es: Seq<EntryView>) -> Seq<EntryView> {
    Seq::new(es.len(), |i: int| (EntryView { selected: !all_selected(es), ..es[i] }))
}

/// Space on the same file twice leaves the selection as it was.
pub proof fn lemma_toggle_twice(es: Seq<EntryView>, f: int)
    requires
        0 <= f < es.len(),
    ensures
        toggled(toggled(es, f), f) == es,
{
    assert(toggled(toggled(es, f), f) =~= es);
}

/// After `a` either every file is selected or none is: all of them when some file was not
/// selected, none when all were.
pub proof fn lemma_toggle_all(es: Seq<EntryView>)
    requires
        es.len() > 0,
    ensures
        all_selected(es) ==> forall|i: int| 0 <= i < es.len() ==> !(#[trigger] toggled_all(es)[i]).selected,
        !all_selected(es) ==> all_selected(toggled_all(es)),
        !all_selected(es) ==> !all_selected(toggled_all(toggled_all(es))),
{
    if !all_selected(es) {
        let t = toggled_all(es);
        assert(all_selected(t));
        let t2 = toggled_all(t);
        assert(!t2[0].selected);
    }
}

/// The entries of `git status --porcelain` are its lines longer than 3 bytes, in order:
/// each with its first 2 bytes as the status and what follows its first 3 bytes as the
/// path, neither selected nor expanded and with no diff yet.
pub proof fn lemma_status_entries(ls: Seq<Seq<char>>)
    ensures
        status_entries(ls) == ls.filter(|l: Seq<char>| byte_len(l) > 3).map_values(
            |l: Seq<char>|
                (EntryView {
                    path: byte_skip(l, 3),
                    status: byte_take(l, 2),
                    selected: false,
                    expanded: false,
                    diff: seq![],
                }),
        ),
    decreases ls.len(),
{
    reveal(Seq::filter);
    if ls.len() > 0 {
        lemma_status_entries(ls.drop_last());
        let f = ls.drop_last().filter(|l: Seq<char>| byte_len(l) > 3);
        let g = |l: Seq<char>|
            (EntryView {
                path: byte_skip(l, 3),
                status: byte_take(l, 2),
                selected: false,
                expanded: false,
                diff: seq![],
            });
        assert(f.push(ls.last()).map_values(g) =~= f.map_values(g).push(g(ls.last())));
    } else {
        assert(ls.filter(|l: Seq<char>| byte_len(l) > 3).map_values(
            |l: Seq<char>|
                (EntryView {
                    path: byte_skip(l, 3),
                    status: byte_take(l, 2),
                    selected: false,
                    expanded: false,
                    diff: seq![],
                }),
        ) =~= Seq::<EntryView>::empty());
    }
}

/// With every entry collapsed, the list shows one line per file, in order; an expanded
/// entry adds a line per line of its diff, so the list is never shorter than the entries.
pub proof fn lemma_render_lines_collapsed(es: Seq<EntryView>)
    ensures
        (forall|i: int| 0 <= i < es.len() ==> !(#[trigger] es[i]).expanded) ==> render_lines(es) == Seq::new(
            es.len(),
            |i: int| RenderLine::FileHeader(i as usize),
        ),
        render_lines(es).len() >= es.len(),
    decreases es.len(),
{
    lemma_render_lines(es);
    if es.len() > 0 {
        lemma_render_lines_collapsed(es.drop_last());
        if forall|i: int| 0 <= i < es.len() ==> !(#[trigger] es[i]).expanded {
            assert(forall|i: int| 0 <= i < es.drop_last().len() ==> !(#[trigger] es.drop_last()[i]).expanded) by {
                assert forall|i: int| 0 <= i < es.drop_last().len() implies !(#[trigger] es.drop_last()[i]).expanded by {
                    assert(es.drop_last()[i] == es[i]);
                }
            }
            assert(!es.last().expanded);
            assert(render_lines(es) =~= Seq::new(es.len(), |i: int| RenderLine::FileHeader(i as usize)));
        }
    }
}

} // verus!
