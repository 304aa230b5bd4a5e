//! Reading the vault as a whole: the list of notes (newest first), full-text
//! search, and where a note's file lies. The caller walks the vault's
//! directory and hands over what it found for each Markdown file.

use vstd::prelude::*;
use crate::text::{
    lowercase, lines_spec, trim_spec, contains_spec, seqs_of, chars_of, string_of, lines, trim,
    contains, to_lowercase,
};
use crate::error::{ErrorView, StoreError};
use crate::slug::{resolve_spec, note_id_from_title_spec, resolve_id, note_id_from_title_chars};
use crate::fsplan::{note_path, note_path_exec};
use crate::store::{Store, opt_view};
use crate::note::{
    FileMeta, Note, NoteView, note_outcome, note_made, note_title_spec, epoch_secs, meta_in_range,
    first_n, strings_view, to_strings,
};
use crate::sorting::{
    stable_sort, insert_pos, lemma_insert_pos_bounds, lemma_insert_pos_step, lemma_stable_sort_perm,
    lemma_stable_sort_sorted, lemma_stable_sort_len,
};

verus! {

broadcast use vstd::string::group_string_axioms;

/// A Markdown file found in the vault: its path, its text (`None` when it
/// could not be read) and its metadata (`None` when it could not be had).
#[derive(Debug)]
pub struct FoundFile {
    pub path: String,
    pub content: Option<String>,
    pub meta: Option<FileMeta>,
}

/// The mathematical value of a found file.
pub struct FoundView {
    pub path: Seq<char>,
    pub content: Option<Seq<char>>,
    pub meta: Option<FileMeta>,
}

impl View for FoundFile {
    type V = FoundView;

    open spec fn view(&self) -> FoundView {
        FoundView {
            path: self.path@,
            content: match self.content {
                Some(c) => Some(c@),
                None => None,
            },
            meta: self.meta,
        }
    }
}

/// The views of found files.
pub open spec fn found_view(v: Seq<FoundFile>) -> Seq<FoundView> {
    v.map_values(|f: FoundFile| f@)
}

/// Every found file's times can be shown.
pub open spec fn all_in_range(v: Seq<FoundFile>) -> bool {
    forall|k: int| 0 <= k < v.len() ==> (#[trigger] v[k].meta matches Some(m) ==> meta_in_range(m))
}

/// A note that could be read: its id, path, text and metadata.
pub struct Listed {
    pub name: Seq<char>,
    pub path: Seq<char>,
    pub content: Seq<char>,
    pub meta: FileMeta,
}

/// The notes that could be read from the found files, in the order found
/// (the others are skipped).
pub open spec fn listed(root: Seq<char>, files: Seq<FoundView>) -> Seq<Listed>
    decreases files.len(),
{
    if files.len() == 0 {
        Seq::<Listed>::empty()
    } else {
        let init = listed(root, files.drop_last());
        let f = files.last();
        match note_outcome(root, f.path, f.content, f.meta) {
            Ok(name) => init.push(
                Listed { name, path: f.path, content: f.content->Some_0, meta: f.meta->Some_0 },
            ),
            Err(_) => init,
        }
    }
}

/// Newer notes first: `a` may stay before `b` when it is at least as new.
pub open spec fn newer_first() -> spec_fn(Listed, Listed) -> bool {
    |a: Listed, b: Listed| epoch_secs(a.meta.modified) >= epoch_secs(b.meta.modified)
}

/// The notes of the vault, newest first (notes modified at the same second
/// keep the order they were found in).
pub open spec fn list_spec(root: Seq<char>, files: Seq<FoundView>) -> Seq<Listed> {
    stable_sort(listed(root, files), newer_first())
}

/// The lines of a note's text that hold the (lower-cased) query, trimmed.
pub open spec fn matching_lines(ls: Seq<Seq<char>>, q: Seq<char>) -> Seq<Seq<char>>
    decreases ls.len(),
{
    if ls.len() == 0 {
        Seq::<Seq<char>>::empty()
    } else if contains_spec(lowercase(ls.last()), q) {
        matching_lines(ls.drop_last(), q).push(trim_spec(ls.last()))
    } else {
        matching_lines(ls.drop_last(), q)
    }
}

/// The lines a search shows for a note: the first three that match.
pub open spec fn hit_lines(content: Seq<char>, q: Seq<char>) -> Seq<Seq<char>> {
    first_n(matching_lines(lines_spec(content), q), 3)
}

/// A note matches the (lower-cased) query by its title, its id or a line.
pub open spec fn is_hit(r: Listed, q: Seq<char>) -> bool {
    contains_spec(lowercase(note_title_spec(r.content, r.name)), q) || contains_spec(
        lowercase(r.name),
        q,
    ) || hit_lines(r.content, q).len() > 0
}

/// The notes that match, in order.
pub open spec fn hits(rs: Seq<Listed>, q: Seq<char>) -> Seq<Listed>
    decreases rs.len(),
{
    if rs.len() == 0 {
        rs
    } else if is_hit(rs.last(), q) {
        hits(rs.drop_last(), q).push(rs.last())
    } else {
        hits(rs.drop_last(), q)
    }
}

/// The notes a search finds, newest first; none for a blank query.
pub open spec fn search_spec(root: Seq<char>, query: Seq<char>, files: Seq<FoundView>) -> Seq<Listed> {
    if trim_spec(query).len() == 0 {
        Seq::<Listed>::empty()
    } else {
        stable_sort(hits(listed(root, files), lowercase(query)), newer_first())
    }
}

/// What `Path::join` gives for `base` and `rel`, as text.
pub uninterp spec fn joined_path(base: Seq<char>, rel: Seq<char>) -> Seq<char>;

/// Calls `Path::join` and turns the path into text; the contract names the
/// result (separators and absolute `rel` are not restated here).
#[verifier::external_body]
pub(crate) fn join_path(base: &str, rel: &str) -> (res: String)
    ensures
        res@ == joined_path(base@, rel@),
{
    std::path::Path::new(base).join(rel).to_string_lossy().into_owned()
}

/// Where the file of the note named `name` lies, when the name is a valid id.
pub open spec fn note_file_spec(root: Seq<char>, name: Seq<char>) -> Result<Seq<char>, ErrorView> {
    match resolve_spec(name) {
        Ok(id) => Ok(joined_path(root, note_path(id))),
        Err(e) => Err(e),
    }
}

/// The position at which `note` goes among `out`, newest first.
fn newest_first_pos(out: &Vec<Note>, note: &Note, recs: Ghost<Seq<Listed>>, r: Ghost<Listed>) -> (res: usize)
    requires
        out.len() == recs@.len(),
        forall|i: int| 0 <= i < out.len() ==> #[trigger] out@[i].modified_raw == epoch_secs(recs@[i].meta.modified),
        note.modified_raw == epoch_secs(r@.meta.modified),
    ensures
        res == insert_pos(recs@, r@, newer_first()),
{
    let mut p: usize = 0;
    assert(recs@.skip(0) =~= recs@);
    while p < out.len() && out[p].modified_raw >= note.modified_raw
        invariant
            p <= out.len() == recs@.len(),
            forall|i: int| 0 <= i < out.len() ==> #[trigger] out@[i].modified_raw == epoch_secs(recs@[i].meta.modified),
            note.modified_raw == epoch_secs(r@.meta.modified),
            insert_pos(recs@, r@, newer_first()) == p + insert_pos(recs@.skip(p as int), r@, newer_first()),
        decreases out.len() - p,
    {
        assert(out@[p as int].modified_raw == epoch_secs(recs@[p as int].meta.modified));
        proof {
            lemma_insert_pos_step(recs@, r@, newer_first(), p as int);
        }
        p = p + 1;
    }
    proof {
        let t = recs@.skip(p as int);
        if p < out.len() {
            assert(out@[p as int].modified_raw == epoch_secs(recs@[p as int].meta.modified));
            assert(t[0] == recs@[p as int]);
        }
    }
    p
}

/// The first three of the lines of `content` that hold `q`, trimmed.
fn hit_lines_exec(content: &Vec<char>, q: &Vec<char>) -> (res: Vec<Vec<char>>)
    ensures
        seqs_of(res@) == hit_lines(content@, q@),
{
    let ls = lines(content);
    let mut all: Vec<Vec<char>> = Vec::new();
    let mut k: usize = 0;
    while k < ls.len()
        invariant
            k <= ls.len(),
            seqs_of(ls@) == lines_spec(content@),
            seqs_of(all@) == matching_lines(seqs_of(ls@).take(k as int), q@),
        decreases ls.len() - k,
    {
        let l = &ls[k];
        assert(l@ == seqs_of(ls@)[k as int]);
        assert(seqs_of(ls@).take(k + 1).drop_last() =~= seqs_of(ls@).take(k as int));
        if contains(&to_lowercase(l), q) {
            let ghost before = seqs_of(all@);
            let t = trim(l);
            all.push(t);
            assert(seqs_of(all@) =~= before.push(t@));
        }
        k = k + 1;
    }
    assert(seqs_of(ls@).take(ls.len() as int) =~= seqs_of(ls@));
    let mut out: Vec<Vec<char>> = Vec::new();
    let mut j: usize = 0;
    while j < all.len() && j < 3
        invariant
            j <= all.len(),
            j <= 3,
            seqs_of(out@) == seqs_of(all@).take(j as int),
        decreases all.len() - j,
    {
        let ghost before = seqs_of(out@);
        let item = all[j].clone();
        assert(item@ == seqs_of(all@)[j as int]);
        out.push(item);
        assert(seqs_of(out@) =~= before.push(item@));
        assert(seqs_of(all@).take(j + 1) =~= seqs_of(all@).take(j as int).push(seqs_of(all@)[j as int]));
        j = j + 1;
    }
    assert(seqs_of(out@) =~= first_n(seqs_of(all@), 3));
    out
}

impl Store {
    /// The notes of the vault, newest first, from the Markdown files found
    /// in it; files that cannot be read are skipped.
    pub fn list_notes(&self, files: Vec<FoundFile>) -> (res: Vec<Note>)
        requires
            all_in_range(files@),
        ensures
            res@.len() == list_spec(self.root@, found_view(files@)).len(),
            forall|k: int|
                0 <= k < res@.len() ==> {
                    let r = #[trigger] list_spec(self.root@, found_view(files@))[k];
                    note_made(res@[k]@, r.name, r.path, r.content, r.meta)
                },
    {
        let ghost orig = files@;
        let ghost fv = found_view(files@);
        let mut files = files;
        let mut out: Vec<Note> = Vec::new();
        let ghost mut recs: Seq<Listed> = Seq::empty();
        let n = files.len();
        let mut k: usize = 0;
        while k < n
            invariant
                n == orig.len(),
                fv == found_view(orig),
                k <= n,
                files@ == orig.skip(k as int),
                all_in_range(orig),
                out.len() == recs.len(),
                recs == stable_sort(listed(self.root@, fv.take(k as int)), newer_first()),
                forall|i: int|
                    0 <= i < out.len() ==> note_made(
                        #[trigger] out@[i]@,
                        recs[i].name,
                        recs[i].path,
                        recs[i].content,
                        recs[i].meta,
                    ),
            decreases n - k,
        {
            let f = files.remove(0);
            assert(f == orig[k as int]);
            assert(fv[k as int] == f@);
            assert(fv.take(k + 1).drop_last() =~= fv.take(k as int));
            assert(orig.skip(k as int).drop_first() =~= orig.skip(k + 1));
            assert(f.meta matches Some(m) ==> meta_in_range(m));
            let ghost fview = f@;
            assert(crate::note::opt_seq(f.content) == fview.content);
            let ghost before_list = listed(self.root@, fv.take(k as int));
            match Note::from_path(self.root.as_str(), f.path.as_str(), f.content, f.meta) {
                Ok(note) => {
                    let ghost r = Listed {
                        name: note.name@,
                        path: fview.path,
                        content: fview.content->Some_0,
                        meta: fview.meta->Some_0,
                    };
                    assert forall|i: int| 0 <= i < out.len() implies #[trigger] out@[i].modified_raw
                        == epoch_secs(recs[i].meta.modified) by {
                        assert(note_made(out@[i]@, recs[i].name, recs[i].path, recs[i].content, recs[i].meta));
                    }
                    let p = newest_first_pos(&out, &note, Ghost(recs), Ghost(r));
                    proof {
                        lemma_insert_pos_bounds(recs, r, newer_first());
                    }
                    let ghost old_out = out@;
                    out.insert(p, note);
                    proof {
                        let new_recs = recs.insert(p as int, r);
                        assert forall|i: int| 0 <= i < out.len() implies note_made(
                            #[trigger] out@[i]@,
                            new_recs[i].name,
                            new_recs[i].path,
                            new_recs[i].content,
                            new_recs[i].meta,
                        ) by {
                            if i < p {
                                assert(out@[i] == old_out[i]);
                            } else if i > p {
                                assert(out@[i] == old_out[i - 1]);
                            }
                        }
                        assert(listed(self.root@, fv.take(k + 1)) == before_list.push(r));
                        assert(before_list.push(r).drop_last() =~= before_list);
                        recs = new_recs;
                    }
                },
                Err(_) => {
                    assert(listed(self.root@, fv.take(k + 1)) == before_list);
                },
            }
            k = k + 1;
        }
        assert(fv.take(n as int) =~= fv);
        out
    }

    /// Full-text search: the notes whose title, id or text holds the query
    /// (ignoring case), newest first, each with its first three matching
    /// lines (trimmed); nothing for a blank query.
    #[verifier::spinoff_prover]
    #[verifier::rlimit(40)]
    pub fn search(&self, query: &str, files: Vec<FoundFile>) -> (res: Vec<(Note, Vec<String>)>)
        requires
            all_in_range(files@),
        ensures
            res@.len() == search_spec(self.root@, query@, found_view(files@)).len(),
            forall|k: int|
                0 <= k < res@.len() ==> {
                    let r = #[trigger] search_spec(self.root@, query@, found_view(files@))[k];
                    &&& note_made(res@[k].0@, r.name, r.path, r.content, r.meta)
                    &&& strings_view(res@[k].1@) == hit_lines(r.content, lowercase(query@))
                },
    {
        let qc = chars_of(query);
        if trim(&qc).len() == 0 {
            return Vec::new();
        }
        let q = to_lowercase(&qc);
        let ghost qs = lowercase(query@);
        let ghost orig = files@;
        let ghost fv = found_view(files@);
        let mut files = files;
        let mut out: Vec<(Note, Vec<String>)> = Vec::new();
        let ghost mut recs: Seq<Listed> = Seq::empty();
        let n = files.len();
        let mut k: usize = 0;
        while k < n
            invariant
                n == orig.len(),
                fv == found_view(orig),
                q@ == qs,
                k <= n,
                files@ == orig.skip(k as int),
                all_in_range(orig),
                out.len() == recs.len(),
                recs == stable_sort(hits(listed(self.root@, fv.take(k as int)), qs), newer_first()),
                forall|i: int|
                    0 <= i < out.len() ==> {
                        &&& note_made(
                            #[trigger] out@[i].0@,
                            recs[i].name,
                            recs[i].path,
                            recs[i].content,
                            recs[i].meta,
                        )
                        &&& strings_view(out@[i].1@) == hit_lines(recs[i].content, qs)
                    },
            decreases n - k,
        {
            let f = files.remove(0);
            assert(f == orig[k as int]);
            assert(fv[k as int] == f@);
            assert(fv.take(k + 1).drop_last() =~= fv.take(k as int));
            assert(orig.skip(k as int).drop_first() =~= orig.skip(k + 1));
            assert(f.meta matches Some(m) ==> meta_in_range(m));
            let ghost fview = f@;
            assert(crate::note::opt_seq(f.content) == fview.content);
            let ghost before_list = listed(self.root@, fv.take(k as int));
            let ghost before_hits = hits(before_list, qs);
            match Note::from_path_with_content(self.root.as_str(), f.path.as_str(), f.content, f.meta) {
                Ok((note, content)) => {
                    let ghost r = Listed {
                        name: note.name@,
                        path: fview.path,
                        content: fview.content->Some_0,
                        meta: fview.meta->Some_0,
                    };
                    let c = chars_of(content.as_str());
                    let found = hit_lines_exec(&c, &q);
                    let title_hit = contains(&to_lowercase(&chars_of(note.title.as_str())), &q);
                    let name_hit = contains(&to_lowercase(&chars_of(note.name.as_str())), &q);
                    if title_hit || name_hit || found.len() > 0 {
                        assert(is_hit(r, qs));
                        assert forall|i: int| 0 <= i < out.len() implies #[trigger] out@[i].0.modified_raw
                            == epoch_secs(recs[i].meta.modified) by {
                            assert(note_made(
                                out@[i].0@,
                                recs[i].name,
                                recs[i].path,
                                recs[i].content,
                                recs[i].meta,
                            ));
                        }
                        let p = newest_first_pos_pairs(&out, &note, Ghost(recs), Ghost(r));
                        proof {
                            lemma_insert_pos_bounds(recs, r, newer_first());
                        }
                        let ghost old_out = out@;
                        let shown = to_strings(&found);
                        let ghost shown_view = strings_view(shown@);
                        assert(shown_view == hit_lines(r.content, qs));
                        let ghost nv = note@;
                        out.insert(p, (note, shown));
                        assert(out@[p as int].0@ == nv && strings_view(out@[p as int].1@) == shown_view);
                        proof {
                            let new_recs = recs.insert(p as int, r);
                            assert forall|i: int| 0 <= i < out.len() implies {
                                &&& note_made(
                                    #[trigger] out@[i].0@,
                                    new_recs[i].name,
                                    new_recs[i].path,
                                    new_recs[i].content,
                                    new_recs[i].meta,
                                )
                                &&& strings_view(out@[i].1@) == hit_lines(new_recs[i].content, qs)
                            } by {
                                if i < p {
                                    assert(out@[i] == old_out[i]);
                                    assert(new_recs[i] == recs[i]);
                                } else if i > p {
                                    assert(out@[i] == old_out[i - 1]);
                                    assert(new_recs[i] == recs[i - 1]);
                                } else {
                                    assert(new_recs[i] == r);
                                    assert(note_made(nv, r.name, r.path, r.content, r.meta));
                                }
                            }
                            assert(listed(self.root@, fv.take(k + 1)) == before_list.push(r));
                            assert(before_list.push(r).drop_last() =~= before_list);
                            assert(hits(before_list.push(r), qs) == before_hits.push(r));
                            assert(before_hits.push(r).drop_last() =~= before_hits);
                            recs = new_recs;
                        }
                    } else {
                        assert(!is_hit(r, qs));
                        assert(listed(self.root@, fv.take(k + 1)) == before_list.push(r));
                        assert(before_list.push(r).drop_last() =~= before_list);
                        assert(hits(before_list.push(r), qs) == before_hits);
                    }
                },
                Err(_) => {
                    assert(listed(self.root@, fv.take(k + 1)) == before_list);
                },
            }
            k = k + 1;
        }
        assert(fv.take(n as int) =~= fv);
        proof {
            let ss = search_spec(self.root@, query@, fv);
            assert(trim_spec(query@) == trim_spec(qc@));
            assert(recs == ss);
            assert forall|j: int| 0 <= j < out@.len() implies {
                let r = #[trigger] search_spec(self.root@, query@, fv)[j];
                &&& note_made(out@[j].0@, r.name, r.path, r.content, r.meta)
                &&& strings_view(out@[j].1@) == hit_lines(r.content, lowercase(query@))
            } by {
                assert(ss[j] == recs[j]);
            }
        }
        out
    }

    /// The on-disk path of the note named `name`, when the name is a valid
    /// id.
    pub fn note_file_path(&self, name: &str) -> (res: Result<String, StoreError>)
        ensures
            crate::error::rview(res) == note_file_spec(self.root@, name@),
    {
        match resolve_id(&chars_of(name)) {
            Ok(id) => Ok(join_path(self.root.as_str(), string_of(&note_path_exec(&id)).as_str())),
            Err(e) => Err(e),
        }
    }

    /// Returns the on-disk path for `name` (relative note id); a name that
    /// is not a valid id is joined to the root as it is.
    pub fn path_for(&self, name: &str) -> (res: String)
        ensures
            res@ == match note_file_spec(self.root@, name@) {
                Ok(p) => p,
                Err(_) => joined_path(self.root@, name@),
            },
    {
        match self.note_file_path(name) {
            Ok(p) => p,
            Err(_) => join_path(self.root.as_str(), name),
        }
    }

    /// Build a note id from an optional folder path and a human title.
    pub fn note_id_from_title(&self, folder: Option<&str>, title: &str) -> (res: Result<String, StoreError>)
        ensures
            crate::error::rview(res) == note_id_from_title_spec(opt_view(folder), title@),
    {
        let f = match folder {
            Some(s) => Some(chars_of(s)),
            None => None,
        };
        let r = match &f {
            Some(v) => note_id_from_title_chars(Some(v), &chars_of(title)),
            None => note_id_from_title_chars(None, &chars_of(title)),
        };
        match r {
            Ok(v) => Ok(string_of(&v)),
            Err(e) => Err(e),
        }
    }
}

/// The position at which `note` goes among search results, newest first.
fn newest_first_pos_pairs(
    out: &Vec<(Note, Vec<String>)>,
    note: &Note,
    recs: Ghost<Seq<Listed>>,
    r: Ghost<Listed>,
) -> (res: usize)
    requires
        out.len() == recs@.len(),
        forall|i: int| 0 <= i < out.len() ==> #[trigger] out@[i].0.modified_raw == epoch_secs(recs@[i].meta.modified),
        note.modified_raw == epoch_secs(r@.meta.modified),
    ensures
        res == insert_pos(recs@, r@, newer_first()),
{
    let mut p: usize = 0;
    assert(recs@.skip(0) =~= recs@);
    while p < out.len() && out[p].0.modified_raw >= note.modified_raw
        invariant
            p <= out.len() == recs@.len(),
            forall|i: int| 0 <= i < out.len() ==> #[trigger] out@[i].0.modified_raw == epoch_secs(recs@[i].meta.modified),
            note.modified_raw == epoch_secs(r@.meta.modified),
            insert_pos(recs@, r@, newer_first()) == p + insert_pos(recs@.skip(p as int), r@, newer_first()),
        decreases out.len() - p,
    {
        assert(out@[p as int].0.modified_raw == epoch_secs(recs@[p as int].meta.modified));
        proof {
            lemma_insert_pos_step(recs@, r@, newer_first(), p as int);
        }
        p = p + 1;
    }
    proof {
        let t = recs@.skip(p as int);
        if p < out.len() {
            assert(out@[p as int].0.modified_raw == epoch_secs(recs@[p as int].meta.modified));
            assert(t[0] == recs@[p as int]);
        }
    }
    p
}

// ---------------------------------------------------------------------------
// Laws
// ---------------------------------------------------------------------------

proof fn lemma_newer_first_order()
    ensures
        forall|a: Listed, b: Listed| #[trigger] newer_first()(a, b) || #[trigger] newer_first()(b, a),
        forall|a: Listed, b: Listed, c: Listed|
            #[trigger] newer_first()(a, b) && #[trigger] newer_first()(b, c) ==> newer_first()(a, c),
{
}

/// The list of notes is newest first, and it holds every note that could be
/// read, each once.
pub proof fn law_list_newest_first(root: Seq<char>, files: Seq<FoundView>)
    ensures
        forall|i: int, j: int|
            0 <= i < j < list_spec(root, files).len() ==> epoch_secs(
                (#[trigger] list_spec(root, files)[i]).meta.modified,
            ) >= epoch_secs((#[trigger] list_spec(root, files)[j]).meta.modified),
        list_spec(root, files).to_multiset() =~= listed(root, files).to_multiset(),
{
    lemma_newer_first_order();
    lemma_stable_sort_sorted(listed(root, files), newer_first());
    lemma_stable_sort_perm(listed(root, files), newer_first());
    assert forall|i: int, j: int| 0 <= i < j < list_spec(root, files).len() implies epoch_secs(
        (#[trigger] list_spec(root, files)[i]).meta.modified,
    ) >= epoch_secs((#[trigger] list_spec(root, files)[j]).meta.modified) by {
        assert(newer_first()(list_spec(root, files)[i], list_spec(root, files)[j]));
    }
}

proof fn lemma_hits_match(rs: Seq<Listed>, q: Seq<char>)
    ensures
        forall|x: Listed| #[trigger] hits(rs, q).contains(x) ==> is_hit(x, q),
    decreases rs.len(),
{
    if rs.len() > 0 {
        lemma_hits_match(rs.drop_last(), q);
        let init = hits(rs.drop_last(), q);
        assert forall|x: Listed| #[trigger] hits(rs, q).contains(x) implies is_hit(x, q) by {
            let i = choose|i: int| 0 <= i < hits(rs, q).len() && hits(rs, q)[i] == x;
            if i < init.len() {
                assert(init[i] == x);
                assert(init.contains(x));
            }
        }
    }
}

/// Every note a search finds matches the query (by title, id or a line,
/// ignoring case), the results are newest first, and a blank query finds
/// nothing.
pub proof fn law_search_results_match(root: Seq<char>, query: Seq<char>, files: Seq<FoundView>)
    ensures
        forall|k: int|
            0 <= k < search_spec(root, query, files).len() ==> is_hit(
                #[trigger] search_spec(root, query, files)[k],
                lowercase(query),
            ),
        forall|i: int, j: int|
            0 <= i < j < search_spec(root, query, files).len() ==> epoch_secs(
                (#[trigger] search_spec(root, query, files)[i]).meta.modified,
            ) >= epoch_secs((#[trigger] search_spec(root, query, files)[j]).meta.modified),
        trim_spec(query).len() == 0 ==> search_spec(root, query, files).len() == 0,
{
    broadcast use vstd::seq_lib::group_to_multiset_ensures;

    if trim_spec(query).len() > 0 {
        let q = lowercase(query);
        let h = hits(listed(root, files), q);
        let r = search_spec(root, query, files);
        lemma_hits_match(listed(root, files), q);
        lemma_stable_sort_perm(h, newer_first());
        lemma_newer_first_order();
        lemma_stable_sort_sorted(h, newer_first());
        assert forall|k: int| 0 <= k < r.len() implies is_hit(#[trigger] r[k], q) by {
            assert(r.contains(r[k]));
            assert(r.to_multiset().count(r[k]) > 0);
            assert(h.to_multiset().count(r[k]) > 0);
            assert(h.contains(r[k]));
        }
        assert forall|i: int, j: int| 0 <= i < j < r.len() implies epoch_secs((#[trigger] r[i]).meta.modified)
            >= epoch_secs((#[trigger] r[j]).meta.modified) by {
            assert(newer_first()(r[i], r[j]));
        }
    }
}

proof fn lemma_hits_complete(rs: Seq<Listed>, q: Seq<char>)
    ensures
        forall|i: int| 0 <= i < rs.len() && is_hit(rs[i], q) ==> #[trigger] hits(rs, q).contains(rs[i]),
    decreases rs.len(),
{
    if rs.len() > 0 {
        let init = rs.drop_last();
        lemma_hits_complete(init, q);
        let h = hits(rs, q);
        let hi = hits(init, q);
        assert forall|i: int| 0 <= i < rs.len() && is_hit(rs[i], q) implies #[trigger] hits(rs, q).contains(
            rs[i],
        ) by {
            if i < init.len() {
                assert(init[i] == rs[i]);
                assert(hi.contains(init[i]));
                let j = choose|j: int| 0 <= j < hi.len() && hi[j] == init[i];
                if is_hit(rs.last(), q) {
                    assert(h[j] == hi[j]);
                }
            } else {
                assert(rs[i] == rs.last());
                assert(h[h.len() - 1] == rs.last());
            }
        }
    }
}

/// A search for a non-blank query finds every readable note whose title or
/// id holds the query, ignoring case (whether or not a line of its text
/// does).
pub proof fn law_search_finds_title_and_id(root: Seq<char>, query: Seq<char>, files: Seq<FoundView>)
    ensures
        trim_spec(query).len() > 0 ==> forall|i: int|
            0 <= i < listed(root, files).len() && (contains_spec(
                lowercase(note_title_spec(listed(root, files)[i].content, listed(root, files)[i].name)),
                lowercase(query),
            ) || contains_spec(lowercase(listed(root, files)[i].name), lowercase(query)))
                ==> #[trigger] search_spec(root, query, files).contains(listed(root, files)[i]),
{
    broadcast use vstd::seq_lib::group_to_multiset_ensures;

    let ls = listed(root, files);
    let q = lowercase(query);
    lemma_hits_complete(ls, q);
    lemma_stable_sort_perm(hits(ls, q), newer_first());
    assert forall|i: int|
        0 <= i < ls.len() && (contains_spec(lowercase(note_title_spec(ls[i].content, ls[i].name)), q)
            || contains_spec(lowercase(ls[i].name), q)) && trim_spec(query).len() > 0 implies #[trigger] search_spec(
        root,
        query,
        files,
    ).contains(ls[i]) by {
        assert(is_hit(ls[i], q));
        assert(hits(ls, q).contains(ls[i]));
        assert(hits(ls, q).to_multiset().count(ls[i]) > 0);
        assert(stable_sort(hits(ls, q), newer_first()).to_multiset().count(ls[i]) > 0);
    }
}

proof fn lemma_matching_lines(ls: Seq<Seq<char>>, q: Seq<char>)
    ensures
        (exists|j: int| 0 <= j < ls.len() && contains_spec(lowercase(#[trigger] ls[j]), q)) ==> matching_lines(
            ls,
            q,
        ).len() > 0,
        forall|k: int|
            0 <= k < matching_lines(ls, q).len() ==> exists|j: int|
                0 <= j < ls.len() && contains_spec(lowercase(#[trigger] ls[j]), q) && #[trigger] matching_lines(
                    ls,
                    q,
                )[k] == trim_spec(ls[j]),
    decreases ls.len(),
{
    if ls.len() > 0 {
        let init = ls.drop_last();
        lemma_matching_lines(init, q);
        let m = matching_lines(ls, q);
        let mi = matching_lines(init, q);
        if exists|j: int| 0 <= j < ls.len() && contains_spec(lowercase(#[trigger] ls[j]), q) {
            let j = choose|j: int| 0 <= j < ls.len() && contains_spec(lowercase(#[trigger] ls[j]), q);
            if j < init.len() {
                assert(init[j] == ls[j]);
            }
        }
        assert forall|k: int| 0 <= k < m.len() implies exists|j: int|
            0 <= j < ls.len() && contains_spec(lowercase(#[trigger] ls[j]), q) && #[trigger] m[k] == trim_spec(
                ls[j],
            ) by {
            if contains_spec(lowercase(ls.last()), q) && k == m.len() - 1 {
                assert(ls[ls.len() - 1] == ls.last());
            } else {
                assert(m[k] == mi[k]);
                let j = choose|j: int|
                    0 <= j < init.len() && contains_spec(lowercase(#[trigger] init[j]), q) && #[trigger] mi[k]
                        == trim_spec(init[j]);
                assert(ls[j] == init[j]);
            }
        }
    }
}

/// `t` is a line of `content`, trimmed, that holds `q` ignoring case.
pub open spec fn line_holding(content: Seq<char>, q: Seq<char>, t: Seq<char>) -> bool {
    exists|j: int|
        0 <= j < lines_spec(content).len() && contains_spec(lowercase(#[trigger] lines_spec(content)[j]), q)
            && t == trim_spec(lines_spec(content)[j])
}

/// The lines a search shows for a note: at most three, each a line of the
/// note's text (trimmed) that holds the query ignoring case, and at least
/// one when any line does.
pub proof fn law_hit_lines(content: Seq<char>, q: Seq<char>)
    ensures
        hit_lines(content, q).len() <= 3,
        forall|k: int|
            0 <= k < hit_lines(content, q).len() ==> line_holding(content, q, #[trigger] hit_lines(content, q)[k]),
        (exists|j: int|
            0 <= j < lines_spec(content).len() && contains_spec(lowercase(#[trigger] lines_spec(content)[j]), q))
            ==> hit_lines(content, q).len() > 0,
{
    let ls = lines_spec(content);
    lemma_matching_lines(ls, q);
    let m = matching_lines(ls, q);
    assert forall|k: int| 0 <= k < hit_lines(content, q).len() implies line_holding(
        content,
        q,
        #[trigger] hit_lines(content, q)[k],
    ) by {
        assert(hit_lines(content, q)[k] == m[k]);
        let j = choose|j: int|
            0 <= j < ls.len() && contains_spec(lowercase(#[trigger] ls[j]), q) && #[trigger] m[k] == trim_spec(
                ls[j],
            );
        assert(lines_spec(content)[j] == ls[j]);
    }
}

/// A search for a non-blank query finds every readable note one of whose
/// lines holds the query, ignoring case.
pub proof fn law_search_finds_lines(root: Seq<char>, query: Seq<char>, files: Seq<FoundView>)
    ensures
        trim_spec(query).len() > 0 ==> forall|i: int, j: int|
            #![trigger listed(root, files)[i], lines_spec(listed(root, files)[i].content)[j]]
            0 <= i < listed(root, files).len() && 0 <= j < lines_spec(listed(root, files)[i].content).len()
                && contains_spec(lowercase(lines_spec(listed(root, files)[i].content)[j]), lowercase(query))
                ==> search_spec(root, query, files).contains(listed(root, files)[i]),
{
    broadcast use vstd::seq_lib::group_to_multiset_ensures;

    let ls = listed(root, files);
    let q = lowercase(query);
    lemma_hits_complete(ls, q);
    lemma_stable_sort_perm(hits(ls, q), newer_first());
    assert forall|i: int, j: int|
        #![trigger ls[i], lines_spec(ls[i].content)[j]]
        0 <= i < ls.len() && 0 <= j < lines_spec(ls[i].content).len() && contains_spec(
            lowercase(lines_spec(ls[i].content)[j]),
            q,
        ) && trim_spec(query).len() > 0 implies search_spec(root, query, files).contains(ls[i]) by {
        law_hit_lines(ls[i].content, q);
        assert(contains_spec(lowercase(lines_spec(ls[i].content)[j]), q));
        assert(hit_lines(ls[i].content, q).len() > 0);
        assert(is_hit(ls[i], q));
        assert(hits(ls, q).contains(ls[i]));
        assert(hits(ls, q).to_multiset().count(ls[i]) > 0);
        assert(stable_sort(hits(ls, q), newer_first()).to_multiset().count(ls[i]) > 0);
    }
}

} // verus!
