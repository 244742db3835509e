//! `wally reset`: undoing recent actions and hard resets.
use vstd::prelude::*;
use crate::text::{
    chars_of, first_word_at, is_ws, lemma_first_word, lemma_words_shape, lines, lines_of, string_of, string_views,
    views, words, words_of,
};

verus! {

/// Where the entries to reset to are listed from.
#[derive(PartialEq, Eq, Structural, Clone, Copy, Debug)]
pub enum ResetMode {
    /// Recent actions, from the reflog.
    Reflog,
    /// Recent commits, from the log.
    Log,
}

/// The labels of the reset-mode menu, in menu order.
pub fn reset_mode_labels() -> (r: Vec<String>)
    ensures
        string_views(r@) == seq![
            "Undo Recent Actions (Reflog)"@,
            "Reset to Specific Commit (Log)"@,
        ],
{
    let mut r: Vec<String> = Vec::new();
    r.push(String::from_str("Undo Recent Actions (Reflog)"));
    r.push(String::from_str("Reset to Specific Commit (Log)"));
    assert(string_views(r@) =~= seq![
        "Undo Recent Actions (Reflog)"@,
        "Reset to Specific Commit (Log)"@,
    ]);
    r
}

/// The mode at position `selection` of the mode menu: the first entry is the reflog,
/// every other one the commit log.
pub fn reset_mode_for(selection: usize) -> (r: ResetMode)
    ensures
        r == if selection == 0 {
            ResetMode::Reflog
        } else {
            ResetMode::Log
        },
{
    if selection == 0 {
        ResetMode::Reflog
    } else {
        ResetMode::Log
    }
}

/// The git arguments that list the last twenty entries of `mode`.
pub fn entry_list_args(mode: ResetMode) -> (r: Vec<String>)
    ensures
        string_views(r@) == match mode {
            ResetMode::Reflog => seq!["reflog"@, "-n"@, "20"@, "--pretty=format:%h - %gs: %s"@],
            ResetMode::Log => seq!["log"@, "--pretty=format:%h - %s (%cr)"@, "-n"@, "20"@],
        },
{
    let mut r: Vec<String> = Vec::new();
    match mode {
        ResetMode::Reflog => {
            r.push(String::from_str("reflog"));
            r.push(String::from_str("-n"));
            r.push(String::from_str("20"));
            r.push(String::from_str("--pretty=format:%h - %gs: %s"));
            assert(string_views(r@) =~= seq![
                "reflog"@,
                "-n"@,
                "20"@,
                "--pretty=format:%h - %gs: %s"@,
            ]);
        },
        ResetMode::Log => {
            r.push(String::from_str("log"));
            r.push(String::from_str("--pretty=format:%h - %s (%cr)"));
            r.push(String::from_str("-n"));
            r.push(String::from_str("20"));
            assert(string_views(r@) =~= seq![
                "log"@,
                "--pretty=format:%h - %s (%cr)"@,
                "-n"@,
                "20"@,
            ]);
        },
    }
    r
}

/// What is said when the listing of `mode` holds no entry.
pub fn empty_listing_message(mode: ResetMode) -> (r: String)
    ensures
        r@ == match mode {
            ResetMode::Reflog => "No recent actions found in reflog."@,
            ResetMode::Log => "No commits found to reset to."@,
        },
{
    match mode {
        ResetMode::Reflog => String::from_str("No recent actions found in reflog."),
        ResetMode::Log => String::from_str("No commits found to reset to."),
    }
}

/// The entries offered for selection: the lines of the listing, in order.
pub fn reset_entries(listing: &str) -> (r: Vec<String>)
    ensures
        string_views(r@) == lines(listing@),
{
    let ls = lines_of(chars_of(listing).as_slice());
    let mut r: Vec<String> = Vec::new();
    let n = ls.len();
    let ghost all = lines(listing@);
    for i in 0..n
        invariant
            n == ls@.len() == all.len(),
            views(ls@) == all,
            string_views(r@) == all.take(i as int),
    {
        let ghost before = r@;
        r.push(string_of(ls[i].as_slice()));
        assert(all[i as int] == ls@[i as int]@);
        assert(string_views(r@) == string_views(before).push(all[i as int]));
        assert(all.take(i + 1) == all.take(i as int).push(all[i as int]));
    }
    assert(all.take(n as int) == all);
    r
}

/// Why a selected entry cannot be reset to.
#[derive(PartialEq, Eq, Structural, Clone, Copy, Debug)]
pub enum ResetError {
    /// The entry names no commit: it holds no word.
    InvalidEntry,
}

impl ResetError {
    /// The message shown for the error.
    pub fn message(&self) -> (r: String)
        ensures
            r@ == "Invalid entry format"@,
    {
        String::from_str("Invalid entry format")
    }
}

/// The commit an entry names: its first whitespace-separated word.
pub open spec fn entry_commit(entry: Seq<char>) -> Option<Seq<char>> {
    if words(entry).len() == 0 {
        None
    } else {
        Some(words(entry)[0])
    }
}

/// The abbreviated hash at the head of a listing entry, or `InvalidEntry` when the entry
/// holds no word.
pub fn entry_hash(entry: &str) -> (r: Result<String, ResetError>)
    ensures
        match r {
            Ok(h) => entry_commit(entry@) == Some(h@),
            Err(e) => entry_commit(entry@) is None && e == ResetError::InvalidEntry,
        },
{
    let ws = words_of(chars_of(entry).as_slice());
    if ws.len() == 0 {
        Err(ResetError::InvalidEntry)
    } else {
        assert(views(ws@)[0] == ws@[0]@);
        Ok(string_of(ws[0].as_slice()))
    }
}

/// The git arguments of the hard reset to `hash`: `reset --hard <hash>`.
pub fn reset_args(hash: &str) -> (r: Vec<String>)
    ensures
        string_views(r@) == seq!["reset"@, "--hard"@, hash@],
{
    let mut r: Vec<String> = Vec::new();
    r.push(String::from_str("reset"));
    r.push(String::from_str("--hard"));
    r.push(string_of(chars_of(hash).as_slice()));
    assert(string_views(r@) =~= seq!["reset"@, "--hard"@, hash@]);
    r
}

/// The hash read from an entry is the entry's first word: what follows its leading
/// whitespace up to the next whitespace or the end, never empty and holding no whitespace;
/// an entry of whitespace only gives none.
pub proof fn lemma_entry_commit(entry: Seq<char>)
    ensures
        (forall|k: int| 0 <= k < entry.len() ==> is_ws(#[trigger] entry[k])) ==> entry_commit(entry) is None,
        entry_commit(entry) matches Some(h) ==> h.len() > 0 && (forall|q: int| 0 <= q < h.len() ==> !is_ws(
            #[trigger] h[q],
        )) && exists|i: int| #[trigger] first_word_at(entry, h, i),
{
    lemma_words_shape(entry);
    if words(entry).len() > 0 {
        lemma_first_word(entry);
        let h = words(entry)[0];
        if forall|k: int| 0 <= k < entry.len() ==> is_ws(#[trigger] entry[k]) {
            let i = choose|i: int| #[trigger] first_word_at(entry, h, i);
            assert(entry.subrange(i, i + h.len())[0] == entry[i]);
        }
    }
}

} // verus!
