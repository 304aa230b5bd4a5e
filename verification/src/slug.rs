//! Slugs and note ids: turning titles and user input into the relative ids
//! under which notes are stored.

use vstd::prelude::*;
use crate::text::{
    is_alphanumeric, lowercase, split_spec, join_spec, nonempty_parts, trim_spec,
    replace_char_spec, seqs_of, lemma_split_len, lemma_split_parts_free, char_is_alphanumeric,
    to_lowercase, chars_of, string_of, split, join, trim, replace_char, has_char, concat,
    keep_nonempty, trim_start_spec, trim_end_spec, is_whitespace, is_ascii_alnum, all_ascii,
    ascii_lower,
};
use crate::error::{ErrorKind, ErrorView, StoreError, about, bare, rview};

verus! {

// ---------------------------------------------------------------------------
// Models
// ---------------------------------------------------------------------------

/// A character as `slugify` keeps it: alphanumerics and `-` stay, anything
/// else becomes `-`.
pub open spec fn slug_char(c: char) -> char {
    if is_alphanumeric(c) || c == '-' {
        c
    } else {
        '-'
    }
}

/// The slug of already lower-cased text: every character mapped by
/// `slug_char`, and the non-empty runs between dashes joined by single dashes.
pub open spec fn slug_core(m: Seq<char>) -> Seq<char> {
    join_spec(nonempty_parts(split_spec(m.map_values(|c: char| slug_char(c)), '-')), '-')
}

/// The slug of `s`.
pub open spec fn slug_of(s: Seq<char>) -> Seq<char> {
    slug_core(lowercase(s))
}

/// Every `/`-separated component is non-empty and neither `.` nor `..`.
pub open spec fn components_valid(path: Seq<char>) -> bool {
    forall|k: int|
        0 <= k < split_spec(path, '/').len() ==> {
            let part = #[trigger] split_spec(path, '/')[k];
            part.len() > 0 && part != seq!['.'] && part != seq!['.', '.']
        }
}

/// User input as an id or path: trimmed, backslashes turned into slashes.
pub open spec fn cleaned(s: Seq<char>) -> Seq<char> {
    replace_char_spec(trim_spec(s), '\\', '/')
}

/// The outcome of `validate_path_components`.
pub open spec fn validate_spec(path: Seq<char>) -> Result<(), ErrorView> {
    if components_valid(path) {
        Ok(())
    } else {
        Err(about(ErrorKind::InvalidPathComponent, path))
    }
}

/// The outcome of `resolve_note_id`.
pub open spec fn resolve_spec(name: Seq<char>) -> Result<Seq<char>, ErrorView> {
    let t = cleaned(name);
    if t.len() == 0 {
        Err(bare(ErrorKind::EmptyNoteId))
    } else if t[0] == '/' {
        Err(bare(ErrorKind::AbsoluteNoteId))
    } else if t.contains('/') {
        if components_valid(t) {
            Ok(t)
        } else {
            Err(about(ErrorKind::InvalidPathComponent, t))
        }
    } else if slug_of(t).len() == 0 {
        Err(about(ErrorKind::EmptySlug, t))
    } else {
        Ok(slug_of(t))
    }
}

/// The outcome of `normalize_folder_path`.
pub open spec fn normalize_spec(path: Seq<char>) -> Result<Seq<char>, ErrorView> {
    let t = cleaned(path);
    if t.len() == 0 {
        Err(bare(ErrorKind::EmptyFolderPath))
    } else if t[0] == '/' {
        Err(bare(ErrorKind::AbsoluteFolderPath))
    } else if components_valid(t) {
        Ok(t)
    } else {
        Err(about(ErrorKind::InvalidPathComponent, t))
    }
}

/// A folder path and a name joined by `/`.
pub open spec fn child_path(folder: Seq<char>, name: Seq<char>) -> Seq<char> {
    folder.push('/') + name
}

/// The outcome of `note_id_from_title`.
pub open spec fn note_id_from_title_spec(folder: Option<Seq<char>>, title: Seq<char>) -> Result<
    Seq<char>,
    ErrorView,
> {
    let file = slug_of(trim_spec(title));
    if file.len() == 0 {
        Err(about(ErrorKind::EmptySlug, title))
    } else {
        match folder {
            Some(f) if trim_spec(f).len() > 0 => match normalize_spec(f) {
                Ok(nf) => Ok(child_path(nf, file)),
                Err(e) => Err(e),
            },
            _ => Ok(file),
        }
    }
}

// ---------------------------------------------------------------------------
// Laws
// ---------------------------------------------------------------------------

proof fn lemma_join_nonempty(ps: Seq<Seq<char>>, d: char)
    requires
        forall|k: int| 0 <= k < ps.len() ==> #[trigger] ps[k].len() > 0,
    ensures
        (join_spec(ps, d).len() == 0) == (ps.len() == 0),
    decreases ps.len(),
{
    if ps.len() > 1 {
        lemma_join_nonempty(ps.drop_last(), d);
    }
}

proof fn lemma_nonempty_parts_props(ps: Seq<Seq<char>>)
    ensures
        forall|k: int| 0 <= k < nonempty_parts(ps).len() ==> #[trigger] nonempty_parts(ps)[k].len() > 0,
        forall|k: int| 0 <= k < nonempty_parts(ps).len() ==> ps.contains(#[trigger] nonempty_parts(ps)[k]),
        (nonempty_parts(ps).len() == 0) == (forall|k: int| 0 <= k < ps.len() ==> #[trigger] ps[k].len() == 0),
    decreases ps.len(),
{
    if ps.len() > 0 {
        let init = ps.drop_last();
        lemma_nonempty_parts_props(init);
        assert forall|k: int| 0 <= k < nonempty_parts(ps).len() implies ps.contains(#[trigger] nonempty_parts(ps)[k]) by {
            if k < nonempty_parts(init).len() {
                let j = choose|j: int| 0 <= j < init.len() && init[j] == nonempty_parts(init)[k];
                assert(ps[j] == init[j]);
            } else {
                assert(ps[ps.len() - 1] == ps.last());
            }
        }
        if ps.last().len() == 0 {
            if nonempty_parts(ps).len() == 0 {
                assert forall|k: int| 0 <= k < ps.len() implies #[trigger] ps[k].len() == 0 by {
                    if k < init.len() {
                        assert(init[k] == ps[k]);
                    }
                }
            } else {
                let k = choose|k: int| 0 <= k < init.len() && #[trigger] init[k].len() != 0;
                assert(ps[k] == init[k]);
            }
        } else {
            assert(ps[ps.len() - 1].len() != 0);
        }
    }
}

/// Every piece of a split is made of characters of the text.
proof fn lemma_split_chars(s: Seq<char>, d: char)
    ensures
        forall|k: int, j: int|
            0 <= k < split_spec(s, d).len() && 0 <= j < split_spec(s, d)[k].len()
                ==> s.contains(#[trigger] split_spec(s, d)[k][j]),
    decreases s.len(),
{
    lemma_split_len(s, d);
    if s.len() > 0 {
        let t = s.drop_last();
        lemma_split_chars(t, d);
        lemma_split_len(t, d);
        assert forall|k: int, j: int|
            0 <= k < split_spec(s, d).len() && 0 <= j < split_spec(s, d)[k].len()
                implies s.contains(#[trigger] split_spec(s, d)[k][j]) by {
            let init = split_spec(t, d);
            if s.last() == d {
                if k < init.len() {
                    let i = choose|i: int| 0 <= i < t.len() && t[i] == init[k][j];
                    assert(s[i] == t[i]);
                }
            } else {
                if k < init.len() - 1 || j < init.last().len() {
                    let i = choose|i: int| 0 <= i < t.len() && t[i] == init[k][j];
                    assert(s[i] == t[i]);
                } else {
                    assert(s[s.len() - 1] == s.last());
                }
            }
        }
    }
}

/// A split gives only empty pieces exactly when the text is all separators.
proof fn lemma_split_all_empty(s: Seq<char>, d: char)
    ensures
        (forall|k: int| 0 <= k < split_spec(s, d).len() ==> #[trigger] split_spec(s, d)[k].len() == 0)
            == (forall|i: int| 0 <= i < s.len() ==> #[trigger] s[i] == d),
    decreases s.len(),
{
    lemma_split_len(s, d);
    if s.len() > 0 {
        let t = s.drop_last();
        lemma_split_all_empty(t, d);
        lemma_split_len(t, d);
        let init = split_spec(t, d);
        if s.last() == d {
            if forall|i: int| 0 <= i < t.len() ==> #[trigger] t[i] == d {
                assert forall|i: int| 0 <= i < s.len() implies #[trigger] s[i] == d by {
                    if i < t.len() {
                        assert(s[i] == t[i]);
                    }
                }
            } else {
                let i = choose|i: int| 0 <= i < t.len() && #[trigger] t[i] != d;
                assert(s[i] == t[i]);
                let k = choose|k: int| 0 <= k < init.len() && #[trigger] init[k].len() != 0;
                assert(split_spec(s, d)[k] == init[k]);
            }
        } else {
            let up = split_spec(s, d);
            assert(up[up.len() - 1].len() > 0);
            assert(s[s.len() - 1] != d);
        }
    }
}

proof fn lemma_join_shape(ps: Seq<Seq<char>>, d: char)
    requires
        forall|k: int| 0 <= k < ps.len() ==> #[trigger] ps[k].len() > 0,
        forall|k: int, j: int| 0 <= k < ps.len() && 0 <= j < ps[k].len() ==> #[trigger] ps[k][j] != d,
    ensures
        ({
            let r = join_spec(ps, d);
            &&& r.len() > 0 ==> r[0] != d && r.last() != d
            &&& forall|i: int| 0 <= i < r.len() - 1 ==> !(#[trigger] r[i] == d && r[i + 1] == d)
            &&& forall|i: int|
                0 <= i < r.len() && r[i] != d ==> exists|k: int, j: int|
                    0 <= k < ps.len() && 0 <= j < ps[k].len() && #[trigger] ps[k][j] == r[i]
        }),
    decreases ps.len(),
{
    if ps.len() == 1 {
        let r = join_spec(ps, d);
        assert(r == ps[0]);
        assert(ps[0][0] != d);
        assert(ps[0][ps[0].len() - 1] != d);
        assert forall|i: int| 0 <= i < r.len() && r[i] != d implies exists|k: int, j: int|
            0 <= k < ps.len() && 0 <= j < ps[k].len() && #[trigger] ps[k][j] == r[i] by {
            assert(ps[0][i] == r[i]);
        }
    } else if ps.len() > 1 {
        let init = ps.drop_last();
        lemma_join_shape(init, d);
        let a = join_spec(init, d);
        let b = ps.last();
        let r = join_spec(ps, d);
        assert(r == a.push(d) + b);
        assert(ps[ps.len() - 1] == b);
        assert(b[0] != d && b[b.len() - 1] != d);
        assert(init[0].len() > 0);
        lemma_join_nonempty(init, d);
        assert(r[0] == a[0]);
        assert(r.last() == b.last());
        assert forall|i: int| 0 <= i < r.len() - 1 implies !(#[trigger] r[i] == d && r[i + 1] == d) by {
            if i < a.len() - 1 {
                assert(r[i] == a[i] && r[i + 1] == a[i + 1]);
            } else if i == a.len() - 1 {
                assert(r[i] == a.last());
            } else if i == a.len() {
                assert(r[i + 1] == b[0]);
            } else {
                assert(r[i] == b[i - a.len() - 1] && r[i + 1] == b[i - a.len()]);
                assert(b[i - a.len() - 1] != d);
            }
        }
        assert forall|i: int| 0 <= i < r.len() && r[i] != d implies exists|k: int, j: int|
            0 <= k < ps.len() && 0 <= j < ps[k].len() && #[trigger] ps[k][j] == r[i] by {
            if i < a.len() {
                assert(r[i] == a[i]);
                let (k, j) = choose|k: int, j: int|
                    0 <= k < init.len() && 0 <= j < init[k].len() && #[trigger] init[k][j] == a[i];
                assert(ps[k] == init[k]);
            } else if i > a.len() {
                assert(r[i] == b[i - a.len() - 1]);
                assert(ps[ps.len() - 1][i - a.len() - 1] == r[i]);
            }
        }
    }
}

/// What `slugify` promises of every input: the slug holds only alphanumeric
/// characters and single dashes between them, and it is empty exactly when
/// the lower-cased input holds no alphanumeric character other than `-`.
pub proof fn lemma_slug_shape(s: Seq<char>)
    ensures
        ({
            let r = slug_of(s);
            &&& r.len() > 0 ==> r[0] != '-' && r.last() != '-'
            &&& forall|i: int| 0 <= i < r.len() - 1 ==> !(#[trigger] r[i] == '-' && r[i + 1] == '-')
            &&& forall|i: int| 0 <= i < r.len() ==> #[trigger] r[i] == '-' || is_alphanumeric(r[i])
            &&& (r.len() == 0) == (forall|i: int|
                0 <= i < lowercase(s).len() ==> #[trigger] lowercase(s)[i] == '-' || !is_alphanumeric(
                    lowercase(s)[i],
                ))
        }),
{
    let l = lowercase(s);
    let m = l.map_values(|c: char| slug_char(c));
    let ps = split_spec(m, '-');
    let np = nonempty_parts(ps);
    let r = slug_of(s);
    assert(r == join_spec(np, '-'));
    lemma_split_parts_free(m, '-');
    lemma_split_chars(m, '-');
    lemma_nonempty_parts_props(ps);
    assert forall|k: int, j: int| 0 <= k < np.len() && 0 <= j < np[k].len() implies #[trigger] np[k][j]
        != '-' by {
        let kk = choose|kk: int| 0 <= kk < ps.len() && ps[kk] == np[k];
        assert(ps[kk][j] == np[k][j]);
    }
    lemma_join_shape(np, '-');
    assert forall|i: int| 0 <= i < r.len() implies #[trigger] r[i] == '-' || is_alphanumeric(r[i]) by {
        if r[i] != '-' {
            let (k, j) = choose|k: int, j: int|
                0 <= k < np.len() && 0 <= j < np[k].len() && #[trigger] np[k][j] == r[i];
            let kk = choose|kk: int| 0 <= kk < ps.len() && ps[kk] == np[k];
            assert(ps[kk][j] == r[i]);
            let x = choose|x: int| 0 <= x < m.len() && m[x] == ps[kk][j];
            assert(m[x] == slug_char(l[x]));
        }
    }
    lemma_join_nonempty(np, '-');
    lemma_split_all_empty(m, '-');
    if r.len() == 0 {
        assert forall|i: int| 0 <= i < l.len() implies #[trigger] l[i] == '-' || !is_alphanumeric(l[i]) by {
            assert(m[i] == slug_char(l[i]));
        }
    } else {
        let k = choose|k: int| 0 <= k < ps.len() && #[trigger] ps[k].len() != 0;
        let i = choose|i: int| 0 <= i < m.len() && #[trigger] m[i] != '-';
        assert(m[i] == slug_char(l[i]));
    }
}

// ---------------------------------------------------------------------------
// Executable
// ---------------------------------------------------------------------------

/// The slug of already lower-cased ASCII text: letters, digits and `-`
/// kept, everything else a dash, and the non-empty runs between dashes
/// joined by single dashes.
pub open spec fn slug_core_ascii(m: Seq<char>) -> Seq<char> {
    join_spec(nonempty_parts(split_spec(m.map_values(|c: char| ascii_slug_char(c)), '-')), '-')
}

/// How an ASCII character maps into a slug.
pub open spec fn ascii_slug_char(c: char) -> char {
    if is_ascii_alnum(c) || c == '-' {
        c
    } else {
        '-'
    }
}

/// The slug of ASCII text: lower-cased, then as `slug_core_ascii`.
pub open spec fn slug_ascii(s: Seq<char>) -> Seq<char> {
    slug_core_ascii(s.map_values(|c: char| ascii_lower(c)))
}

/// The slug of text that is already lower-cased: what `slugify` does after
/// lower-casing.
pub fn slug_from_lowercase(m: &Vec<char>) -> (res: Vec<char>)
    ensures
        res@ == slug_core(m@),
        all_ascii(m@) ==> res@ == slug_core_ascii(m@),
{
    let mut mapped: Vec<char> = Vec::new();
    let mut i: usize = 0;
    while i < m.len()
        invariant
            i <= m.len(),
            mapped@ == m@.subrange(0, i as int).map_values(|c: char| slug_char(c)),
            all_ascii(m@) ==> mapped@ == m@.subrange(0, i as int).map_values(|c: char| ascii_slug_char(c)),
        decreases m.len() - i,
    {
        let c = m[i];
        let keep = char_is_alphanumeric(c) || c == '-';
        proof {
            if all_ascii(m@) {
                assert((m@[i as int] as u32) < 128);
            }
        }
        mapped.push(if keep { c } else { '-' });
        i = i + 1;
        assert(mapped@ =~= m@.subrange(0, i as int).map_values(|c: char| slug_char(c)));
        proof {
            if all_ascii(m@) {
                assert(mapped@ =~= m@.subrange(0, i as int).map_values(|c: char| ascii_slug_char(c)));
            }
        }
    }
    assert(m@.subrange(0, m.len() as int) =~= m@);
    let parts = split(&mapped, '-');
    let kept = keep_nonempty(&parts);
    join(&kept, '-')
}

/// The slug of `s` as characters.
pub fn slug_chars(s: &Vec<char>) -> (res: Vec<char>)
    ensures
        res@ == slug_of(s@),
        all_ascii(s@) ==> res@ == slug_ascii(s@),
{
    let lower = to_lowercase(s);
    proof {
        if all_ascii(s@) {
            assert forall|i: int| 0 <= i < lower@.len() implies (#[trigger] lower@[i] as u32) < 128 by {
                assert((s@[i] as u32) < 128);
            }
        }
    }
    slug_from_lowercase(&lower)
}

/// Convert an arbitrary string into a URL/filename-safe slug.
///
/// Rules:
/// - lower-case
/// - alphanumeric characters and `-` are kept
/// - everything else becomes `-`
/// - leading/trailing/consecutive `-` are collapsed
///
/// Returns an empty string for inputs that contain no alphanumeric characters.
pub fn slugify(s: &str) -> (res: String)
    ensures
        res@ == slug_of(s@),
        all_ascii(s@) ==> res@ == slug_ascii(s@),
{
    let v = chars_of(s);
    string_of(&slug_chars(&v))
}

/// Checks that every `/`-separated component of `path` is non-empty and
/// neither `.` nor `..`.
pub fn validate_path_components(path: &Vec<char>) -> (res: Result<(), StoreError>)
    ensures
        rview(res) == validate_spec(path@),
{
    let parts = split(path, '/');
    let mut k: usize = 0;
    while k < parts.len()
        invariant
            k <= parts.len(),
            seqs_of(parts@) == split_spec(path@, '/'),
            forall|j: int|
                0 <= j < k ==> {
                    let part = #[trigger] split_spec(path@, '/')[j];
                    part.len() > 0 && part != seq!['.'] && part != seq!['.', '.']
                },
        decreases parts.len() - k,
    {
        let part = &parts[k];
        assert(part@ == split_spec(path@, '/')[k as int]);
        let is_dot = part.len() == 1 && part[0] == '.';
        let is_dotdot = part.len() == 2 && part[0] == '.' && part[1] == '.';
        proof {
            if part@ == seq!['.'] {
                assert(part@[0] == '.');
            }
            if part@ == seq!['.', '.'] {
                assert(part@[0] == '.' && part@[1] == '.');
            }
            if is_dot {
                assert(part@ =~= seq!['.']);
            }
            if is_dotdot {
                assert(part@ =~= seq!['.', '.']);
            }
        }
        if part.len() == 0 || is_dot || is_dotdot {
            return Err(StoreError::about(ErrorKind::InvalidPathComponent, path));
        }
        k = k + 1;
    }
    Ok(())
}

/// Rejects an empty slug made from `original`.
pub fn bail_if_empty_slug(slug: &Vec<char>, original: &Vec<char>) -> (res: Result<(), StoreError>)
    ensures
        slug.len() == 0 ==> rview(res) == Err::<(), ErrorView>(about(ErrorKind::EmptySlug, original@)),
        slug.len() > 0 ==> res is Ok,
{
    if slug.len() == 0 {
        Err(StoreError::about(ErrorKind::EmptySlug, original))
    } else {
        Ok(())
    }
}

/// Resolve a note id used in CRUD APIs, as characters.
pub fn resolve_id(name: &Vec<char>) -> (res: Result<Vec<char>, StoreError>)
    ensures
        rview(res) == resolve_spec(name@),
{
    let t = replace_char(&trim(name), '\\', '/');
    if t.len() == 0 {
        return Err(StoreError::bare(ErrorKind::EmptyNoteId));
    }
    if t[0] == '/' {
        return Err(StoreError::bare(ErrorKind::AbsoluteNoteId));
    }
    if has_char(&t, '/') {
        match validate_path_components(&t) {
            Ok(()) => Ok(t),
            Err(e) => Err(e),
        }
    } else {
        let slug = slug_chars(&t);
        match bail_if_empty_slug(&slug, &t) {
            Ok(()) => Ok(slug),
            Err(e) => Err(e),
        }
    }
}

/// Resolve a note id used in CRUD APIs.
/// Single-segment names are slugified; paths with `/` are validated as-is.
pub fn resolve_note_id(name: &str) -> (res: Result<String, StoreError>)
    ensures
        rview(res) == resolve_spec(name@),
{
    match resolve_id(&chars_of(name)) {
        Ok(v) => Ok(string_of(&v)),
        Err(e) => Err(e),
    }
}

/// Normalizes a folder path given by the user: trimmed, backslashes as
/// slashes, relative, and with valid components.
pub fn normalize_folder_path(path: &Vec<char>) -> (res: Result<Vec<char>, StoreError>)
    ensures
        rview(res) == normalize_spec(path@),
{
    let t = replace_char(&trim(path), '\\', '/');
    if t.len() == 0 {
        return Err(StoreError::bare(ErrorKind::EmptyFolderPath));
    }
    if t[0] == '/' {
        return Err(StoreError::bare(ErrorKind::AbsoluteFolderPath));
    }
    match validate_path_components(&t) {
        Ok(()) => Ok(t),
        Err(e) => Err(e),
    }
}

/// `folder/name`.
pub fn child_path_exec(folder: &Vec<char>, name: &Vec<char>) -> (res: Vec<char>)
    ensures
        res@ == child_path(folder@, name@),
{
    let mut f = folder.clone();
    f.push('/');
    concat(&f, name)
}

/// Build a note id from an optional folder path and a human title.
pub fn note_id_from_title_chars(folder: Option<&Vec<char>>, title: &Vec<char>) -> (res: Result<
    Vec<char>,
    StoreError,
>)
    ensures
        rview(res) == note_id_from_title_spec(
            match folder {
                Some(f) => Some(f@),
                None => None,
            },
            title@,
        ),
{
    let file = slug_chars(&trim(title));
    match bail_if_empty_slug(&file, title) {
        Ok(()) => {},
        Err(e) => {
            return Err(e);
        },
    }
    match folder {
        Some(f) => {
            if trim(f).len() > 0 {
                match normalize_folder_path(f) {
                    Ok(nf) => Ok(child_path_exec(&nf, &file)),
                    Err(e) => Err(e),
                }
            } else {
                Ok(file)
            }
        },
        None => Ok(file),
    }
}

/// Trimming leaves text whose ends are not white space.
proof fn lemma_trim_start_first(s: Seq<char>)
    ensures
        trim_start_spec(s).len() == 0 || !is_whitespace(trim_start_spec(s)[0]),
    decreases s.len(),
{
    if s.len() > 0 && is_whitespace(s[0]) {
        lemma_trim_start_first(s.drop_first());
    }
}

proof fn lemma_trim_end_ends(s: Seq<char>)
    requires
        s.len() == 0 || !is_whitespace(s[0]),
    ensures
        trim_end_spec(s).len() == 0 || (!is_whitespace(trim_end_spec(s)[0]) && !is_whitespace(
            trim_end_spec(s).last(),
        )),
    decreases s.len(),
{
    if s.len() > 0 && is_whitespace(s.last()) {
        lemma_trim_end_ends(s.drop_last());
    }
}

proof fn lemma_trim_fixed(s: Seq<char>)
    requires
        s.len() == 0 || (!is_whitespace(s[0]) && !is_whitespace(s.last())),
    ensures
        trim_spec(s) == s,
{
}

/// A cleaned name is clean already: cleaning it again changes nothing.
proof fn lemma_cleaned_twice(s: Seq<char>)
    ensures
        cleaned(cleaned(s)) == cleaned(s),
{
    let t = trim_spec(s);
    lemma_trim_start_first(s);
    lemma_trim_end_ends(trim_start_spec(s));
    let c = cleaned(s);
    assert(!is_whitespace('/') && !is_whitespace('\\'));
    if c.len() > 0 {
        assert(c[0] == (if t[0] == '\\' { '/' } else { t[0] }));
        assert(c.last() == c[c.len() - 1]);
        assert(t.last() == t[t.len() - 1]);
    }
    lemma_trim_fixed(c);
    assert(replace_char_spec(c, '\\', '/') =~= c);
}

/// A name of a note in a folder (it holds `/`) resolves to an id that
/// resolves to itself: resolving it again gives the same id.
pub proof fn law_resolve_path_id_stable(name: Seq<char>)
    ensures
        (resolve_spec(name) is Ok && cleaned(name).contains('/')) ==> resolve_spec(
            resolve_spec(name)->Ok_0,
        ) == resolve_spec(name),
{
    lemma_cleaned_twice(name);
}

/// Splitting text that ends in a piece free of the separator extends the
/// last piece of the split by it.
proof fn lemma_split_extend(x: Seq<char>, b: Seq<char>, d: char)
    requires
        forall|j: int| 0 <= j < b.len() ==> #[trigger] b[j] != d,
    ensures
        split_spec(x + b, d) == split_spec(x, d).update(
            split_spec(x, d).len() - 1,
            split_spec(x, d).last() + b,
        ),
    decreases b.len(),
{
    lemma_split_len(x, d);
    let sx = split_spec(x, d);
    if b.len() == 0 {
        assert(x + b =~= x);
        assert(sx.last() + b =~= sx.last());
        assert(sx.update(sx.len() - 1, sx.last()) =~= sx);
    } else {
        let b0 = b.drop_last();
        assert forall|j: int| 0 <= j < b0.len() implies #[trigger] b0[j] != d by {
            assert(b0[j] == b[j]);
        }
        lemma_split_extend(x, b0, d);
        assert((x + b).drop_last() =~= x + b0);
        assert((x + b).last() == b.last());
        assert(b[b.len() - 1] != d);
        let init = split_spec(x + b0, d);
        assert(init.last() == sx.last() + b0);
        assert((sx.last() + b0).push(b.last()) =~= sx.last() + b);
        assert(init.update(init.len() - 1, init.last().push(b.last())) =~= sx.update(
            sx.len() - 1,
            sx.last() + b,
        ));
    }
}

/// Joining pieces free of the separator and splitting again gives the
/// pieces back.
proof fn lemma_split_join(ps: Seq<Seq<char>>, d: char)
    requires
        ps.len() >= 1,
        forall|k: int, j: int| 0 <= k < ps.len() && 0 <= j < ps[k].len() ==> #[trigger] ps[k][j] != d,
    ensures
        split_spec(join_spec(ps, d), d) == ps,
    decreases ps.len(),
{
    if ps.len() == 1 {
        let b = ps[0];
        assert forall|j: int| 0 <= j < b.len() implies #[trigger] b[j] != d by {
            assert(ps[0][j] != d);
        }
        lemma_split_extend(Seq::<char>::empty(), b, d);
        assert(Seq::<char>::empty() + b =~= b);
        assert(Seq::<char>::empty() + b =~= b);
        assert(seq![Seq::<char>::empty()].update(0, Seq::<char>::empty() + b) =~= ps);
    } else {
        let init = ps.drop_last();
        assert forall|k: int, j: int| 0 <= k < init.len() && 0 <= j < init[k].len() implies #[trigger] init[k][j]
            != d by {
            assert(init[k] == ps[k]);
        }
        lemma_split_join(init, d);
        let a = join_spec(init, d);
        let b = ps.last();
        assert forall|j: int| 0 <= j < b.len() implies #[trigger] b[j] != d by {
            assert(ps[ps.len() - 1][j] != d);
        }
        lemma_split_len(a, d);
        let sa = split_spec(a.push(d), d);
        assert(a.push(d).drop_last() =~= a);
        assert(sa == init.push(Seq::<char>::empty()));
        lemma_split_extend(a.push(d), b, d);
        assert(Seq::<char>::empty() + b =~= b);
        assert(sa.update(sa.len() - 1, sa.last() + b) =~= ps);
    }
}

/// A slug of ASCII text is made of lower-case letters, digits and single
/// dashes between them; slugifying it again gives it back.
pub proof fn law_slug_ascii_stable(s: Seq<char>)
    requires
        all_ascii(s),
    ensures
        ({
            let r = slug_ascii(s);
            &&& forall|i: int| 0 <= i < r.len() ==> #[trigger] r[i] == '-' || ('a' <= r[i] <= 'z') || ('0' <= r[i] <= '9')
            &&& r.len() > 0 ==> r[0] != '-' && r.last() != '-'
            &&& forall|i: int| 0 <= i < r.len() - 1 ==> !(#[trigger] r[i] == '-' && r[i + 1] == '-')
            &&& all_ascii(r)
            &&& slug_ascii(r) == r
        }),
{
    let m = s.map_values(|c: char| ascii_lower(c));
    let mm = m.map_values(|c: char| ascii_slug_char(c));
    assert forall|i: int| 0 <= i < mm.len() implies #[trigger] mm[i] == '-' || ('a' <= mm[i] <= 'z') || ('0'
        <= mm[i] <= '9') by {
        assert((s[i] as u32) < 128);
    }
    let ps = split_spec(mm, '-');
    let np = nonempty_parts(ps);
    let r = join_spec(np, '-');
    assert(r == slug_ascii(s));
    lemma_split_parts_free(mm, '-');
    lemma_split_chars(mm, '-');
    lemma_nonempty_parts_props(ps);
    assert forall|k: int, j: int| 0 <= k < np.len() && 0 <= j < np[k].len() implies #[trigger] np[k][j] != '-'
        && (('a' <= np[k][j] <= 'z') || ('0' <= np[k][j] <= '9')) by {
        assert(ps.contains(np[k]));
        let kk = choose|kk: int| 0 <= kk < ps.len() && ps[kk] == np[k];
        assert(ps[kk][j] != '-');
        assert(mm.contains(ps[kk][j]));
    }
    lemma_join_shape(np, '-');
    assert forall|i: int| 0 <= i < r.len() implies #[trigger] r[i] == '-' || ('a' <= r[i] <= 'z') || ('0' <= r[i]
        <= '9') by {
        if r[i] != '-' {
            let (k, j) = choose|k: int, j: int| 0 <= k < np.len() && 0 <= j < np[k].len() && #[trigger] np[k][j] == r[i];
        }
    }
    assert forall|i: int| 0 <= i < r.len() implies (#[trigger] r[i] as u32) < 128 by {
        assert(r[i] == '-' || ('a' <= r[i] <= 'z') || ('0' <= r[i] <= '9'));
    }
    let rl = r.map_values(|c: char| ascii_lower(c));
    assert(rl =~= r) by {
        assert forall|i: int| 0 <= i < r.len() implies rl[i] == r[i] by {
            assert(r[i] == '-' || ('a' <= r[i] <= 'z') || ('0' <= r[i] <= '9'));
        }
    }
    let rm = rl.map_values(|c: char| ascii_slug_char(c));
    assert(rm =~= r) by {
        assert forall|i: int| 0 <= i < r.len() implies rm[i] == r[i] by {
            assert(r[i] == '-' || ('a' <= r[i] <= 'z') || ('0' <= r[i] <= '9'));
        }
    }
    if np.len() == 0 {
        assert(r.len() == 0);
        assert(split_spec(r, '-') == seq![Seq::<char>::empty()]);
        assert(seq![Seq::<char>::empty()].drop_last() =~= Seq::<Seq<char>>::empty());
        assert(nonempty_parts(Seq::<Seq<char>>::empty()) == Seq::<Seq<char>>::empty());
        assert(nonempty_parts(seq![Seq::<char>::empty()]) =~= Seq::<Seq<char>>::empty());
    } else {
        lemma_split_join(np, '-');
        lemma_nonempty_fixed(np);
    }
}

/// Pieces that are all non-empty are kept as they are.
proof fn lemma_nonempty_fixed(ps: Seq<Seq<char>>)
    requires
        forall|k: int| 0 <= k < ps.len() ==> #[trigger] ps[k].len() > 0,
    ensures
        nonempty_parts(ps) == ps,
    decreases ps.len(),
{
    if ps.len() > 0 {
        let init = ps.drop_last();
        assert forall|k: int| 0 <= k < init.len() implies #[trigger] init[k].len() > 0 by {
            assert(init[k] == ps[k]);
        }
        lemma_nonempty_fixed(init);
        assert(ps[ps.len() - 1].len() > 0);
        assert(init.push(ps.last()) =~= ps);
    }
}

} // verus!
