//! Templates on disk: their file names, how they are listed, how a project is laid out from
//! one, and how one is made from a project.
use vstd::prelude::*;
use crate::models::ProjectTemplate;
use crate::text::{
    byte_len, byte_len_gt, byte_take, chars_eq, chars_of, concat, contains_char, ends_with,
    ends_with_chars, is_boundary, is_boundary_at, pad_right, pad_right_chars, push_repeat, repeat,
    replace_char, replace_char_chars, string_of, string_views, take_bytes,
};

verus! {

// ---------------------------------------------------------------------------
// Names
// ---------------------------------------------------------------------------
/// The file that holds the installed template `name`: `<name>.json`.
pub fn template_file_name(name: &str) -> (r: String)
    ensures
        r@ == name@ + ".json"@,
{
    string_of(concat(chars_of(name).as_slice(), chars_of(".json").as_slice()).as_slice())
}

/// Where a template comes from.
pub enum TemplateSource {
    /// The template built into wally.
    Default,
    /// The installed template in this file of the templates directory.
    Installed(String),
}

/// The template `name`: the built-in one for `default`, else the installed `<name>.json`.
pub fn template_source(name: &str) -> (r: TemplateSource)
    ensures
        name@ == "default"@ ==> r is Default,
        name@ != "default"@ ==> r is Installed && r->Installed_0@ == name@ + ".json"@,
{
    if chars_eq(chars_of(name).as_slice(), chars_of("default").as_slice()) {
        TemplateSource::Default
    } else {
        TemplateSource::Installed(template_file_name(name))
    }
}

/// The templates offered when none was named: `default`, then the installed ones.
pub fn template_choices(installed: &Vec<String>) -> (r: Vec<String>)
    ensures
        string_views(r@) == seq!["default"@] + string_views(installed@),
{
    let mut r: Vec<String> = Vec::new();
    r.push(String::from_str("default"));
    let n = installed.len();
    for i in 0..n
        invariant
            n == installed@.len(),
            string_views(r@) == seq!["default"@] + string_views(installed@).take(i as int),
    {
        let s = string_of(chars_of(installed[i].as_str()).as_slice());
        let ghost before = r@;
        r.push(s);
        assert(string_views(r@) == string_views(before).push(s@));
        assert(string_views(installed@).take(i + 1) == string_views(installed@).take(i as int).push(
            installed@[i as int]@,
        ));
    }
    assert(string_views(installed@).take(n as int) == string_views(installed@));
    r
}

/// Index of the last `.` of `s`, if any.
pub open spec fn last_dot(s: Seq<char>) -> Option<int> {
    if exists|i: int| 0 <= i < s.len() && s[i] == '.' {
        Some(choose|i: int| 0 <= i < s.len() && s[i] == '.' && forall|j: int| i < j < s.len() ==> s[j] != '.')
    } else {
        None
    }
}

/// The name of the installed template in the file `file_name`: the stem of a name whose
/// extension is `json` (`Path::extension` and `Path::file_stem`: the extension follows the
/// last dot, unless that dot starts the name).
pub open spec fn json_stem(file_name: Seq<char>) -> Option<Seq<char>> {
    match last_dot(file_name) {
        Some(i) => if i > 0 && file_name.skip(i + 1) == "json"@ {
            Some(file_name.take(i))
        } else {
            None
        },
        None => None,
    }
}

/// The template name of a file in the templates directory, if it is a JSON file.
pub fn template_stem(file_name: &str) -> (r: Option<String>)
    ensures
        match r {
            Some(s) => json_stem(file_name@) == Some(s@),
            None => json_stem(file_name@) is None,
        },
{
    let cs = chars_of(file_name);
    let mut i = cs.len();
    while i > 0 && cs[i - 1] != '.'
        invariant
            i <= cs@.len(),
            cs@ == file_name@,
            forall|j: int| i <= j < cs@.len() ==> cs@[j] != '.',
        decreases i,
    {
        i = i - 1;
    }
    if i == 0 {
        assert(!(exists|k: int| 0 <= k < cs@.len() && cs@[k] == '.'));
        return None;
    }
    let d = i - 1;
    proof {
        let c = choose|k: int| 0 <= k < cs@.len() && cs@[k] == '.' && forall|j: int| k < j < cs@.len() ==> cs@[j] != '.';
        assert(cs@[d as int] == '.');
        if c < d {
            assert(cs@[d as int] != '.');
        }
        if c > d {
            assert(cs@[c] != '.');
        }
        assert(last_dot(file_name@) == Some(d as int));
    }
    if d == 0 {
        return None;
    }
    let ext = crate::text::slice_vec(cs.as_slice(), d + 1, cs.len());
    assert(ext@ == cs@.skip(d + 1));
    if chars_eq(ext.as_slice(), chars_of("json").as_slice()) {
        let stem = crate::text::slice_vec(cs.as_slice(), 0, d);
        assert(stem@ == cs@.take(d as int));
        Some(string_of(stem.as_slice()))
    } else {
        None
    }
}

// ---------------------------------------------------------------------------
// Listing
// ---------------------------------------------------------------------------
/// The two header lines of the template list.
pub fn list_header() -> (r: (String, String))
    ensures
        r.0@ == pad_right("TEMPLATE"@, 20) + " | "@ + "DESCRIPTION"@,
        r.1@ == repeat('-', 20) + "-+-"@ + repeat('-', 40),
{
    let a = pad_right_chars(chars_of("TEMPLATE").as_slice(), 20);
    let b = concat(concat(a.as_slice(), chars_of(" | ").as_slice()).as_slice(), chars_of("DESCRIPTION").as_slice());
    let mut dashes: Vec<char> = Vec::new();
    push_repeat(&mut dashes, '-', 20);
    let mut tail: Vec<char> = Vec::new();
    push_repeat(&mut tail, '-', 40);
    let c = concat(concat(dashes.as_slice(), chars_of("-+-").as_slice()).as_slice(), tail.as_slice());
    assert(dashes@ == repeat('-', 20));
    assert(tail@ == repeat('-', 40));
    (string_of(b.as_slice()), string_of(c.as_slice()))
}

/// A description on one line: line breaks become spaces.
pub open spec fn one_line(desc: Seq<char>) -> Seq<char> {
    replace_char(desc, '\n', ' ')
}

/// The description as listed: on one line, and cut to its first 67 bytes followed by `...`
/// when longer than 70 bytes.
pub open spec fn listed_desc(desc: Seq<char>) -> Seq<char> {
    if byte_len(one_line(desc)) > 70 {
        byte_take(one_line(desc), 67) + "..."@
    } else {
        one_line(desc)
    }
}

/// A long description can be cut after its 67th byte (the cut that would otherwise panic on
/// a character that spans it).
pub open spec fn desc_cuttable(desc: Seq<char>) -> bool {
    byte_len(one_line(desc)) > 70 ==> is_boundary(one_line(desc), 67)
}

/// Whether the description can be listed.
pub fn desc_can_be_listed(desc: &str) -> (r: bool)
    ensures
        r == desc_cuttable(desc@),
{
    let clean = replace_char_chars(chars_of(desc).as_slice(), '\n', ' ');
    !byte_len_gt(clean.as_slice(), 70) || is_boundary_at(clean.as_slice(), 67)
}

/// A row of the template list: the name padded to 20 characters, ` | `, and the listed
/// description.
pub fn template_row(name: &str, desc: &str) -> (r: String)
    requires
        desc_cuttable(desc@),
    ensures
        r@ == pad_right(name@, 20) + " | "@ + listed_desc(desc@),
{
    let clean = replace_char_chars(chars_of(desc).as_slice(), '\n', ' ');
    let shown = if byte_len_gt(clean.as_slice(), 70) {
        let cut = take_bytes(clean.as_slice(), 67);
        concat(cut.as_slice(), chars_of("...").as_slice())
    } else {
        clean
    };
    let left = concat(pad_right_chars(chars_of(name).as_slice(), 20).as_slice(), chars_of(" | ").as_slice());
    string_of(concat(left.as_slice(), shown.as_slice()).as_slice())
}

// ---------------------------------------------------------------------------
// Laying out a project
// ---------------------------------------------------------------------------
/// What a template entry becomes in a new project.
#[derive(PartialEq, Eq, Structural, Clone, Copy, Debug)]
pub enum EntryKind {
    /// A directory.
    Directory,
    /// A file with the entry's content.
    File,
    /// A shell script: a file that is made executable.
    Script,
}

/// An entry is a directory when its path ends with `/`, or when it has no content and no
/// dot in its path; a file otherwise, and a script when its path ends with `.sh`.
pub open spec fn entry_kind(path: Seq<char>, content: Seq<char>) -> EntryKind {
    if ends_with(path, "/"@) || (content.len() == 0 && !path.contains('.')) {
        EntryKind::Directory
    } else if ends_with(path, ".sh"@) {
        EntryKind::Script
    } else {
        EntryKind::File
    }
}

/// What the template entry `path` with `content` becomes.
pub fn classify_template_entry(path: &str, content: &str) -> (r: EntryKind)
    ensures
        r == entry_kind(path@, content@),
{
    let p = chars_of(path);
    let c = chars_of(content);
    if ends_with_chars(p.as_slice(), chars_of("/").as_slice()) || (c.len() == 0 && !contains_char(
        p.as_slice(),
        '.',
    )) {
        EntryKind::Directory
    } else if ends_with_chars(p.as_slice(), chars_of(".sh").as_slice()) {
        EntryKind::Script
    } else {
        EntryKind::File
    }
}

// ---------------------------------------------------------------------------
// Packing a project
// ---------------------------------------------------------------------------
/// A path under the project, as the walk found it.
pub struct WalkedEntry {
    /// The path relative to the project directory.
    pub relative: String,
    pub is_dir: bool,
    /// The file's text, or `None` when it could not be read as text.
    pub content: Option<String>,
}

/// The key of a walked path in the template: backslashes become slashes, and a directory
/// ends with `/`.
pub open spec fn template_key(relative: Seq<char>, is_dir: bool) -> Seq<char> {
    let r = replace_char(relative, '\\', '/');
    if is_dir && !ends_with(r, "/"@) {
        r + "/"@
    } else {
        r
    }
}

/// The files of a template packed from the walked entries `es`, in walk order: a
/// directory gives its key with no content, a readable file its key with its text, and an
/// unreadable file nothing.
pub open spec fn packed_files(es: Seq<(Seq<char>, bool, Option<Seq<char>>)>) -> Map<Seq<char>, Seq<char>>
    decreases es.len(),
{
    if es.len() == 0 {
        Map::empty()
    } else {
        let prev = packed_files(es.drop_last());
        let e = es.last();
        if e.1 {
            prev.insert(template_key(e.0, true), seq![])
        } else {
            match e.2 {
                Some(c) => prev.insert(template_key(e.0, false), c),
                None => prev,
            }
        }
    }
}

/// Views of walked entries.
pub open spec fn walked_views(v: Seq<WalkedEntry>) -> Seq<(Seq<char>, bool, Option<Seq<char>>)> {
    v.map_values(
        |w: WalkedEntry|
            (
                w.relative@,
                w.is_dir,
                match w.content {
                    Some(c) => Some(c@),
                    None => None,
                },
            ),
    )
}

/// The (key, content) that a walked entry puts into the packed template, if any.
pub open spec fn packed_entry(e: (Seq<char>, bool, Option<Seq<char>>)) -> Option<(Seq<char>, Seq<char>)> {
    if e.1 {
        Some((template_key(e.0, true), seq![]))
    } else {
        match e.2 {
            Some(c) => Some((template_key(e.0, false), c)),
            None => None,
        }
    }
}

/// The key a walked entry writes (empty when it writes none).
pub open spec fn packed_key(e: (Seq<char>, bool, Option<Seq<char>>)) -> Seq<char> {
    match packed_entry(e) {
        Some(p) => p.0,
        None => seq![],
    }
}

/// The content a walked entry writes (empty when it writes none).
pub open spec fn packed_content(e: (Seq<char>, bool, Option<Seq<char>>)) -> Seq<char> {
    match packed_entry(e) {
        Some(p) => p.1,
        None => seq![],
    }
}

proof fn lemma_packed_keeps(es: Seq<(Seq<char>, bool, Option<Seq<char>>)>, i: int)
    requires
        0 <= i < es.len(),
        packed_entry(es[i]) is Some,
        forall|j: int|
            i < j < es.len() && (#[trigger] packed_entry(es[j])) is Some ==> packed_key(es[j])
                != packed_key(es[i]),
    ensures
        packed_files(es).contains_key(packed_key(es[i])),
        packed_files(es)[packed_key(es[i])] == packed_content(es[i]),
    decreases es.len(),
{
    let last = es.len() - 1;
    if i < last {
        let pre = es.drop_last();
        assert forall|j: int| i < j < pre.len() && (#[trigger] packed_entry(pre[j])) is Some implies packed_key(pre[j]) != packed_key(pre[i]) by {
            assert(pre[j] == es[j]);
            assert(packed_entry(es[j]) is Some);
        }
        assert(pre[i] == es[i]);
        lemma_packed_keeps(pre, i);
        assert(es.last() == es[last]);
        if packed_entry(es[last]) is Some {
            assert(packed_key(es[last]) != packed_key(es[i]));
        }
    }
}

/// Laying out a packed project gives each walked entry back as what it was: the packed
/// template holds the entry's key with its content, and that key is laid out as a
/// directory exactly when the entry was one. Left out are the entries whose key a later
/// entry writes again, and the files laid out as directories: one with no text and no dot
/// in its path, or one whose key ends with `/`.
pub proof fn lemma_pack_then_layout(es: Seq<(Seq<char>, bool, Option<Seq<char>>)>, i: int)
    requires
        0 <= i < es.len(),
        packed_entry(es[i]) is Some,
        forall|j: int|
            i < j < es.len() && (#[trigger] packed_entry(es[j])) is Some ==> packed_key(es[j])
                != packed_key(es[i]),
        !es[i].1 ==> !ends_with(template_key(es[i].0, false), "/"@) && (es[i].2->0.len() > 0
            || es[i].0.contains('.')),
    ensures
        ({
            let k = packed_key(es[i]);
            let c = packed_content(es[i]);
            &&& packed_files(es).contains_key(k)
            &&& packed_files(es)[k] == c
            &&& (entry_kind(k, c) == EntryKind::Directory) == es[i].1
        }),
{
    lemma_packed_keeps(es, i);
    let e = es[i];
    reveal_strlit("/");
    if e.1 {
        let r = replace_char(e.0, '\\', '/');
        let k = template_key(e.0, true);
        if !ends_with(r, "/"@) {
            assert(k == r + "/"@);
            assert(k.skip(k.len() - 1) == "/"@);
        }
        assert(ends_with(k, "/"@));
    } else {
        let k = template_key(e.0, false);
        if e.0.contains('.') {
            let d = choose|d: int| 0 <= d < e.0.len() && e.0[d] == '.';
            assert(k[d] == '.');
            assert(k.contains('.'));
        }
    }
}

/// The key of a walked path in the template.
pub fn walked_key(relative: &str, is_dir: bool) -> (r: String)
    ensures
        r@ == template_key(relative@, is_dir),
{
    let r = replace_char_chars(chars_of(relative).as_slice(), '\\', '/');
    if is_dir && !ends_with_chars(r.as_slice(), chars_of("/").as_slice()) {
        string_of(concat(r.as_slice(), chars_of("/").as_slice()).as_slice())
    } else {
        string_of(r.as_slice())
    }
}

/// The template `name` of a project whose walk found `walked` (the project directory itself
/// excluded).
pub fn pack_template(name: &str, walked: &Vec<WalkedEntry>) -> (r: ProjectTemplate)
    ensures
        r.wf(),
        r@.template_name == name@,
        r@.description == Seq::<char>::empty(),
        r@.files == packed_files(walked_views(walked@)),
{
    let mut t = ProjectTemplate::new(string_of(chars_of(name).as_slice()), String::new());
    let n = walked.len();
    let ghost all = walked_views(walked@);
    assert(all.take(0) == Seq::<(Seq<char>, bool, Option<Seq<char>>)>::empty());
    for i in 0..n
        invariant
            n == walked@.len() == all.len(),
            all == walked_views(walked@),
            t.wf(),
            t@.template_name == name@,
            t@.description == Seq::<char>::empty(),
            t@.files == packed_files(all.take(i as int)),
    {
        assert(all.take(i + 1).drop_last() == all.take(i as int));
        assert(all.take(i + 1).last() == all[i as int]);
        let w = &walked[i];
        if w.is_dir {
            t.insert_file(walked_key(w.relative.as_str(), true), String::new());
        } else {
            match &w.content {
                Some(c) => {
                    let body = string_of(chars_of(c.as_str()).as_slice());
                    t.insert_file(walked_key(w.relative.as_str(), false), body);
                },
                None => {},
            }
        }
    }
    assert(all.take(n as int) == all);
    t
}

/// The template that `wally context` writes beside the context document: the project
/// `name` packed from its walk, described as `Context snapshot of <name>`.
pub fn snapshot_template(name: &str, walked: &Vec<WalkedEntry>) -> (r: ProjectTemplate)
    ensures
        r.wf(),
        r@.template_name == name@,
        r@.description == "Context snapshot of "@ + name@,
        r@.files == packed_files(walked_views(walked@)),
{
    let mut t = pack_template(name, walked);
    let desc = concat(chars_of("Context snapshot of ").as_slice(), chars_of(name).as_slice());
    t.set_description(string_of(desc.as_slice()));
    t
}

/// A listed description is one line and takes at most 70 bytes: the description itself
/// (its line breaks made spaces) when that fits, else its first 67 bytes and `...`.
pub proof fn lemma_listed_desc(desc: Seq<char>)
    requires
        desc_cuttable(desc),
    ensures
        !listed_desc(desc).contains('\n'),
        byte_len(listed_desc(desc)) <= 70,
        byte_len(one_line(desc)) <= 70 ==> listed_desc(desc) == one_line(desc),
        byte_len(one_line(desc)) > 70 ==> listed_desc(desc).take(listed_desc(desc).len() - 3) == byte_take(
            one_line(desc),
            67,
        ),
{
    reveal_strlit("...");
    let o = one_line(desc);
    assert(!o.contains('\n')) by {
        if o.contains('\n') {
            let k = choose|k: int| 0 <= k < o.len() && o[k] == '\n';
        }
    }
    if byte_len(o) > 70 {
        let k = crate::text::chars_before(o, 67);
        assert(byte_len(o.take(k)) == 67);
        let cut = byte_take(o, 67);
        assert(cut == o.take(k));
        crate::text::lemma_byte_len_concat(cut, "..."@);
        let dots = "..."@;
        assert(dots.drop_last().drop_last().drop_last() == Seq::<char>::empty());
        assert(dots =~= seq!['.', '.', '.']);
        reveal_with_fuel(crate::text::byte_len, 4);
        assert(byte_len(dots) == 3);
        assert((cut + dots).take((cut + dots).len() - 3) == cut);
        assert(!(cut + dots).contains('\n')) by {
            if (cut + dots).contains('\n') {
                let q = choose|q: int| 0 <= q < (cut + dots).len() && (cut + dots)[q] == '\n';
                if q < cut.len() {
                    assert(o[q] == '\n');
                }
            }
        }
    }
}

proof fn lemma_last_dot_exists(s: Seq<char>, k: int)
    requires
        0 <= k < s.len(),
        s[k] == '.',
    ensures
        exists|i: int| 0 <= i < s.len() && s[i] == '.' && forall|j: int| i < j < s.len() ==> s[j] != '.',
    decreases s.len() - k,
{
    if exists|j: int| k < j < s.len() && s[j] == '.' {
        let j = choose|j: int| k < j < s.len() && s[j] == '.';
        lemma_last_dot_exists(s, j);
    } else {
        assert(forall|j: int| k < j < s.len() ==> s[j] != '.');
    }
}

/// A file of the templates directory names a template only when its name is that template's
/// name followed by `.json`, the name not empty.
pub proof fn lemma_json_stem(file_name: Seq<char>)
    ensures
        json_stem(file_name) matches Some(stem) ==> stem.len() > 0 && file_name == stem + ".json"@,
{
    reveal_strlit(".json");
    reveal_strlit("json");
    if json_stem(file_name) is Some {
        assert(exists|i: int| 0 <= i < file_name.len() && file_name[i] == '.');
        let k = choose|k: int| 0 <= k < file_name.len() && file_name[k] == '.';
        lemma_last_dot_exists(file_name, k);
        let i = choose|i: int|
            0 <= i < file_name.len() && file_name[i] == '.' && forall|j: int|
                i < j < file_name.len() ==> file_name[j] != '.';
        assert(last_dot(file_name) == Some(i));
        assert(file_name[i] == '.');
        assert(file_name =~= file_name.take(i) + seq!['.'] + file_name.skip(i + 1));
        assert(".json"@ =~= seq!['.'] + "json"@);
    }
}

} // verus!
