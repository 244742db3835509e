//! Project templates: a name, a description, and files keyed by their path.
use vstd::prelude::*;
use crate::text::{chars_eq, chars_of, lemma_lex_total, lemma_lex_trans, lex_less, lex_lt, string_of};

verus! {

/// (path, content) pairs of a template's files.
pub open spec fn file_views(v: Seq<(String, String)>) -> Seq<(Seq<char>, Seq<char>)> {
    v.map_values(|p: (String, String)| (p.0@, p.1@))
}

/// The paths are in strictly increasing order (so none occurs twice).
pub open spec fn keys_sorted(es: Seq<(Seq<char>, Seq<char>)>) -> bool {
    forall|i: int, j: int| 0 <= i < j < es.len() ==> lex_lt(#[trigger] es[i].0, #[trigger] es[j].0)
}

/// The files as a map from path to content.
pub open spec fn entries_map(es: Seq<(Seq<char>, Seq<char>)>) -> Map<Seq<char>, Seq<char>>
    decreases es.len(),
{
    if es.len() == 0 {
        Map::empty()
    } else {
        entries_map(es.drop_last()).insert(es.last().0, es.last().1)
    }
}

/// A project template.
pub struct ProjectTemplate {
    pub template_name: String,
    pub description: String,
    files: Vec<(String, String)>,
}

/// A template with its text as characters and its files as a map.
pub struct TemplateView {
    pub template_name: Seq<char>,
    pub description: Seq<char>,
    pub files: Map<Seq<char>, Seq<char>>,
}

impl View for ProjectTemplate {
    type V = TemplateView;

    closed spec fn view(&self) -> TemplateView {
        TemplateView {
            template_name: self.template_name@,
            description: self.description@,
            files: entries_map(file_views(self.files@)),
        }
    }
}

proof fn lemma_sorted_distinct(es: Seq<(Seq<char>, Seq<char>)>)
    requires
        keys_sorted(es),
    ensures
        forall|i: int, j: int| 0 <= i < es.len() && 0 <= j < es.len() && i != j ==> es[i].0 != es[j].0,
{
    assert forall|i: int, j: int| 0 <= i < es.len() && 0 <= j < es.len() && i != j implies es[i].0
        != es[j].0 by {
        lemma_lex_total(es[i].0, es[j].0);
        if i < j {
            assert(lex_lt(es[i].0, es[j].0));
        } else {
            assert(lex_lt(es[j].0, es[i].0));
        }
    }
}

/// With distinct paths, the map holds exactly the pairs of the list.
proof fn lemma_entries_map(es: Seq<(Seq<char>, Seq<char>)>)
    requires
        forall|i: int, j: int| 0 <= i < es.len() && 0 <= j < es.len() && i != j ==> es[i].0 != es[j].0,
    ensures
        forall|i: int|
            0 <= i < es.len() ==> #[trigger] entries_map(es).contains_key(es[i].0) && entries_map(es)[es[i].0]
                == es[i].1,
        forall|k: Seq<char>|
            #[trigger] entries_map(es).contains_key(k) ==> exists|i: int| 0 <= i < es.len() && es[i].0 == k,
    decreases es.len(),
{
    if es.len() > 0 {
        let pre = es.drop_last();
        lemma_entries_map(pre);
        assert forall|i: int| 0 <= i < es.len() implies #[trigger] entries_map(es).contains_key(es[i].0)
            && entries_map(es)[es[i].0] == es[i].1 by {
            if i < pre.len() {
                assert(pre[i] == es[i]);
                assert(es[i].0 != es[es.len() - 1].0);
                assert(entries_map(pre).contains_key(pre[i].0));
            }
        }
        assert forall|k: Seq<char>| #[trigger] entries_map(es).contains_key(k) implies exists|i: int|
            0 <= i < es.len() && es[i].0 == k by {
            if k != es.last().0 {
                assert(entries_map(pre).contains_key(k));
                let i = choose|i: int| 0 <= i < pre.len() && pre[i].0 == k;
                assert(es[i] == pre[i]);
            } else {
                assert(es[es.len() - 1].0 == k);
            }
        }
    }
}

impl ProjectTemplate {
    /// The files are kept in strictly increasing path order.
    pub closed spec fn wf(&self) -> bool {
        keys_sorted(file_views(self.files@))
    }

    /// A template with no files.
    pub fn new(template_name: String, description: String) -> (r: ProjectTemplate)
        ensures
            r.wf(),
            r@.template_name == template_name@,
            r@.description == description@,
            r@.files == Map::<Seq<char>, Seq<char>>::empty(),
    {
        ProjectTemplate { template_name, description, files: Vec::new() }
    }

    /// Replaces the description.
    pub fn set_description(&mut self, description: String)
        ensures
            final(self).wf() == old(self).wf(),
            final(self)@.description == description@,
            final(self)@.template_name == old(self)@.template_name,
            final(self)@.files == old(self)@.files,
    {
        self.description = description;
    }

    /// The files as (path, content), in increasing path order.
    pub fn files(&self) -> (r: &Vec<(String, String)>)
        requires
            self.wf(),
        ensures
            keys_sorted(file_views(r@)),
            entries_map(file_views(r@)) == self@.files,
            forall|k: Seq<char>|
                #[trigger] self@.files.contains_key(k) <==> exists|i: int|
                    0 <= i < r@.len() && r@[i].0@ == k,
            forall|i: int|
                0 <= i < r@.len() ==> #[trigger] self@.files[r@[i].0@] == r@[i].1@,
    {
        proof {
            let es = file_views(self.files@);
            lemma_sorted_distinct(es);
            lemma_entries_map(es);
            assert forall|k: Seq<char>| #[trigger] self@.files.contains_key(k) <==> exists|i: int|
                0 <= i < self.files@.len() && self.files@[i].0@ == k by {
                if exists|i: int| 0 <= i < self.files@.len() && self.files@[i].0@ == k {
                    let i = choose|i: int| 0 <= i < self.files@.len() && self.files@[i].0@ == k;
                    assert(es[i].0 == k);
                }
                if self@.files.contains_key(k) {
                    let i = choose|i: int| 0 <= i < es.len() && es[i].0 == k;
                    assert(self.files@[i].0@ == k);
                }
            }
            assert forall|i: int| 0 <= i < self.files@.len() implies #[trigger] self@.files[self.files@[i].0@]
                == self.files@[i].1@ by {
                assert(es[i] == (self.files@[i].0@, self.files@[i].1@));
                assert(entries_map(es).contains_key(es[i].0));
            }
        }
        &self.files
    }

    /// The content of the file at `path`, if the template has one.
    pub fn get_file(&self, path: &str) -> (r: Option<String>)
        requires
            self.wf(),
        ensures
            match r {
                Some(c) => self@.files.contains_key(path@) && self@.files[path@] == c@,
                None => !self@.files.contains_key(path@),
            },
    {
        let k = chars_of(path);
        let n = self.files.len();
        let ghost es = file_views(self.files@);
        proof {
            lemma_sorted_distinct(es);
            lemma_entries_map(es);
        }
        for i in 0..n
            invariant
                n == self.files@.len() == es.len(),
                es == file_views(self.files@),
                keys_sorted(es),
                k@ == path@,
                forall|j: int| 0 <= j < i ==> es[j].0 != path@,
        {
            assert(es[i as int] == (self.files@[i as int].0@, self.files@[i as int].1@));
            if chars_eq(chars_of(self.files[i].0.as_str()).as_slice(), k.as_slice()) {
                proof {
                    lemma_sorted_distinct(es);
                    lemma_entries_map(es);
                    assert(entries_map(es).contains_key(es[i as int].0));
                }
                return Some(string_of(chars_of(self.files[i].1.as_str()).as_slice()));
            }
        }
        proof {
            if self@.files.contains_key(path@) {
                let i = choose|i: int| 0 <= i < es.len() && es[i].0 == path@;
            }
        }
        None
    }

    /// The number of files.
    pub fn file_count(&self) -> (r: usize)
        requires
            self.wf(),
        ensures
            r == self@.files.dom().len(),
    {
        proof {
            let es = file_views(self.files@);
            lemma_sorted_distinct(es);
            lemma_map_len(es);
        }
        self.files.len()
    }

    /// Adds the file `path` with `content`, replacing the content of a file already at
    /// `path` (`BTreeMap::insert`).
    pub fn insert_file(&mut self, path: String, content: String)
        requires
            old(self).wf(),
        ensures
            final(self).wf(),
            final(self)@.files == old(self)@.files.insert(path@, content@),
            final(self)@.template_name == old(self)@.template_name,
            final(self)@.description == old(self)@.description,
    {
        let k = chars_of(path.as_str());
        let n = self.files.len();
        let ghost es = file_views(self.files@);
        let mut p: usize = 0;
        while p < n && lex_less(chars_of(self.files[p].0.as_str()).as_slice(), k.as_slice())
            invariant
                p <= n == self.files@.len() == es.len(),
                es == file_views(self.files@),
                keys_sorted(es),
                k@ == path@,
                forall|j: int| 0 <= j < p ==> lex_lt(#[trigger] es[j].0, path@),
            decreases n - p,
        {
            assert(es[p as int].0 == self.files@[p as int].0@);
            p = p + 1;
        }
        proof {
            lemma_sorted_distinct(es);
            lemma_entries_map(es);
        }
        let mut files: Vec<(String, String)> = Vec::new();
        std::mem::swap(&mut files, &mut self.files);
        if p < n && chars_eq(chars_of(files[p].0.as_str()).as_slice(), k.as_slice()) {
            let ghost before = files@;
            assert(es[p as int].0 == path@);
            files.set(p, (path, content));
            proof {
                let es2 = file_views(files@);
                assert(es2 == es.update(p as int, (k@, content@)));
                assert(keys_sorted(es2)) by {
                    assert forall|i: int, j: int| 0 <= i < j < es2.len() implies lex_lt(
                        #[trigger] es2[i].0,
                        #[trigger] es2[j].0,
                    ) by {
                        assert(es2[i].0 == es[i].0 && es2[j].0 == es[j].0);
                    }
                }
                lemma_sorted_distinct(es2);
                lemma_entries_map(es2);
                assert(entries_map(es2) =~= entries_map(es).insert(path@, content@)) by {
                    assert forall|key: Seq<char>| #[trigger] entries_map(es2).contains_key(key)
                        <==> entries_map(es).insert(path@, content@).contains_key(key) by {
                        if entries_map(es).contains_key(key) {
                            let i = choose|i: int| 0 <= i < es.len() && es[i].0 == key;
                            assert(es2[i].0 == key);
                            assert(entries_map(es2).contains_key(es2[i].0));
                        }
                        if entries_map(es2).contains_key(key) {
                            let i = choose|i: int| 0 <= i < es2.len() && es2[i].0 == key;
                            assert(es[i].0 == key);
                            assert(entries_map(es).contains_key(es[i].0));
                        }
                        if key == path@ {
                            assert(es2[p as int].0 == key);
                            assert(entries_map(es2).contains_key(es2[p as int].0));
                        }
                    }
                    assert forall|key: Seq<char>| #[trigger] entries_map(es2).contains_key(key) implies entries_map(
                        es2,
                    )[key] == entries_map(es).insert(path@, content@)[key] by {
                        let i = choose|i: int| 0 <= i < es2.len() && es2[i].0 == key;
                        assert(entries_map(es2).contains_key(es2[i].0));
                        if i != p {
                            assert(es2[i] == es[i]);
                            assert(entries_map(es).contains_key(es[i].0));
                        }
                    }
                }
            }
        } else {
            proof {
                if p < n {
                    assert(es[p as int].0 == files@[p as int].0@);
                    lemma_lex_total(es[p as int].0, path@);
                }
            }
            files.insert(p, (path, content));
            proof {
                let es2 = file_views(files@);
                let e = (k@, content@);
                assert(es2 =~= es.take(p as int) + seq![e] + es.skip(p as int));
                assert forall|i: int| 0 <= i < es2.len() implies #[trigger] es2[i] == if i < p {
                    es[i]
                } else if i == p {
                    e
                } else {
                    es[i - 1]
                } by {}
                assert(keys_sorted(es2)) by {
                    assert forall|i: int, j: int| 0 <= i < j < es2.len() implies lex_lt(
                        #[trigger] es2[i].0,
                        #[trigger] es2[j].0,
                    ) by {
                        if j == p {
                        } else if i == p {
                            assert(lex_lt(path@, es[p as int].0));
                            if j - 1 > p {
                                lemma_lex_trans(path@, es[p as int].0, es[j - 1].0);
                            }
                        } else if i < p && j > p {
                            assert(lex_lt(es[i].0, path@));
                            assert(lex_lt(path@, es[p as int].0));
                            lemma_lex_trans(es[i].0, path@, es[p as int].0);
                            if j - 1 > p {
                                lemma_lex_trans(es[i].0, es[p as int].0, es[j - 1].0);
                            }
                        } else if i > p {
                            assert(es2[i] == es[i - 1] && es2[j] == es[j - 1]);
                        }
                    }
                }
                assert(!entries_map(es).contains_key(path@)) by {
                    if entries_map(es).contains_key(path@) {
                        let i = choose|i: int| 0 <= i < es.len() && es[i].0 == path@;
                        lemma_lex_total(path@, path@);
                        if i < p {
                        } else if i > p {
                            lemma_lex_trans(path@, es[p as int].0, es[i].0);
                        }
                    }
                }
                lemma_sorted_distinct(es2);
                lemma_entries_map(es2);
                assert(entries_map(es2) =~= entries_map(es).insert(path@, content@)) by {
                    assert forall|key: Seq<char>| #[trigger] entries_map(es2).contains_key(key)
                        <==> entries_map(es).insert(path@, content@).contains_key(key) by {
                        if entries_map(es).contains_key(key) {
                            let i = choose|i: int| 0 <= i < es.len() && es[i].0 == key;
                            if i < p {
                                assert(es2[i].0 == key);
                                assert(entries_map(es2).contains_key(es2[i].0));
                            } else {
                                assert(es2[i + 1].0 == key);
                                assert(entries_map(es2).contains_key(es2[i + 1].0));
                            }
                        }
                        if key == path@ {
                            assert(es2[p as int].0 == key);
                            assert(entries_map(es2).contains_key(es2[p as int].0));
                        }
                        if entries_map(es2).contains_key(key) {
                            let i = choose|i: int| 0 <= i < es2.len() && es2[i].0 == key;
                            if i < p {
                                assert(es[i].0 == key);
                                assert(entries_map(es).contains_key(es[i].0));
                            } else if i > p {
                                assert(es[i - 1].0 == key);
                                assert(entries_map(es).contains_key(es[i - 1].0));
                            }
                        }
                    }
                    assert forall|key: Seq<char>| #[trigger] entries_map(es2).contains_key(key) implies entries_map(
                        es2,
                    )[key] == entries_map(es).insert(path@, content@)[key] by {
                        let i = choose|i: int| 0 <= i < es2.len() && es2[i].0 == key;
                        assert(entries_map(es2).contains_key(es2[i].0));
                        if i < p {
                            assert(es2[i] == es[i]);
                            assert(entries_map(es).contains_key(es[i].0));
                        } else if i > p {
                            assert(es2[i] == es[i - 1]);
                            assert(entries_map(es).contains_key(es[i - 1].0));
                        }
                    }
                }
            }
        }
        self.files = files;
    }
}

proof fn lemma_map_len(es: Seq<(Seq<char>, Seq<char>)>)
    requires
        forall|i: int, j: int| 0 <= i < es.len() && 0 <= j < es.len() && i != j ==> es[i].0 != es[j].0,
    ensures
        entries_map(es).dom().finite(),
        entries_map(es).dom().len() == es.len(),
    decreases es.len(),
{
    if es.len() > 0 {
        let pre = es.drop_last();
        lemma_map_len(pre);
        lemma_entries_map(pre);
        if entries_map(pre).contains_key(es.last().0) {
            let i = choose|i: int| 0 <= i < pre.len() && pre[i].0 == es.last().0;
            assert(es[i].0 == es[es.len() - 1].0);
        }
    }
}

/// Reading a file back gives what was last written there, and writing one path leaves the
/// others as they were (`insert_file`, then `get_file`).
pub proof fn lemma_read_after_insert(files: Map<Seq<char>, Seq<char>>, path: Seq<char>, content: Seq<char>, other: Seq<char>)
    requires
        other != path,
    ensures
        files.insert(path, content).contains_key(path),
        files.insert(path, content)[path] == content,
        files.insert(path, content).contains_key(other) == files.contains_key(other),
        files.contains_key(other) ==> files.insert(path, content)[other] == files[other],
{
}

/// The files of a template do not depend on the order in which distinct paths were
/// written, and a second write to a path replaces the first.
pub proof fn lemma_insert_order(files: Map<Seq<char>, Seq<char>>, a: Seq<char>, x: Seq<char>, b: Seq<char>, y: Seq<char>)
    ensures
        a != b ==> files.insert(a, x).insert(b, y) == files.insert(b, y).insert(a, x),
        files.insert(a, x).insert(a, y) == files.insert(a, y),
{
    if a != b {
        assert(files.insert(a, x).insert(b, y) =~= files.insert(b, y).insert(a, x));
    }
    assert(files.insert(a, x).insert(a, y) =~= files.insert(a, y));
}

} // verus!
