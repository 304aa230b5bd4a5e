//! What the command-line tool decides and prints, apart from the printing:
//! the text of a new note, the answer to a yes/no question, the line of
//! tags under a listed note, and which directory `ls` lists.

use vstd::prelude::*;
use crate::text::{
    trim_spec, join_spec, find_spec, seqs_of, chars_of, string_of, trim, concat, text, join,
    find_exec,
};
use crate::graph::{ascii_eq, eq_ignore_ascii_case};
use crate::note::strings_view;
use crate::vault::joined_path;
use crate::note::{year_text, is_digit};
use crate::slug::{slugify, slug_of};

verus! {

broadcast use vstd::string::group_string_axioms;

/// The text of a new note titled `title`, created on `date`.
pub open spec fn new_note_text_spec(title: Seq<char>, date: Seq<char>) -> Seq<char> {
    "# "@ + title + "\n\n*Created: "@ + date + "*\n\n"@
}

/// The text of a new note titled `title`, created on `date`.
pub fn new_note_text(title: &str, date: &str) -> (res: String)
    ensures
        res@ == new_note_text_spec(title@, date@),
{
    let a = concat(&text("# "), &chars_of(title));
    let b = concat(&a, &text("\n\n*Created: "));
    let c = concat(&b, &chars_of(date));
    string_of(&concat(&c, &text("*\n\n")))
}

/// The shape of `%Y-%m-%d`: a year, then `-MM-DD` with each field two
/// digits.
pub open spec fn date_shape(s: Seq<char>) -> bool {
    let n = s.len() as int;
    &&& n >= 10
    &&& year_text(s.take(n - 6))
    &&& s[n - 6] == '-'
    &&& s[n - 3] == '-'
    &&& is_digit(s[n - 5]) && is_digit(s[n - 4])
    &&& is_digit(s[n - 2]) && is_digit(s[n - 1])
}

/// Calls chrono's `Local::now()` and formats the date as `%Y-%m-%d`. Which
/// date comes out depends on the clock and the machine's time zone, so only
/// the shape that chrono writes for these fields is stated: the year (four
/// digits at least, signed outside 0 to 9999), then two-digit month and day.
#[verifier::external_body]
fn today() -> (res: String)
    ensures
        date_shape(res@),
{
    chrono::Local::now().format("%Y-%m-%d").to_string()
}

/// The text of a new note titled `title`, stamped with today's date.
pub fn dated_note_text(title: &str) -> (res: String)
    ensures
        exists|date: Seq<char>| date_shape(date) && res@ == new_note_text_spec(title@, date),
{
    let date = today();
    new_note_text(title, date.as_str())
}

/// What `cb new TITLE` makes: none for a blank title, else the note's id
/// (the slug of the trimmed title) and the trimmed title.
pub fn new_note_request(title: &str) -> (res: Option<(String, String)>)
    ensures
        match res {
            None => trim_spec(title@).len() == 0,
            Some((name, t)) => trim_spec(title@).len() > 0 && t@ == trim_spec(title@) && name@
                == slug_of(trim_spec(title@)),
        },
{
    let tv = trim(&chars_of(title));
    if tv.len() == 0 {
        return None;
    }
    let t = string_of(&tv);
    let name = slugify(t.as_str());
    Some((name, t))
}

/// Whether an answer to a yes/no question says yes: `y` or `Y`, with white
/// space around it.
pub fn confirms(input: &str) -> (res: bool)
    ensures
        res == ascii_eq(trim_spec(input@), seq!['y']),
{
    let y: Vec<char> = vec!['y'];
    assert(y@ =~= seq!['y']);
    eq_ignore_ascii_case(&trim(&chars_of(input)), &y)
}

/// The tags each after `#`.
pub open spec fn hashed(tags: Seq<Seq<char>>) -> Seq<Seq<char>> {
    tags.map_values(|t: Seq<char>| seq!['#'] + t)
}

/// `parts` joined with two spaces between them.
pub open spec fn join2(parts: Seq<Seq<char>>) -> Seq<char>
    decreases parts.len(),
{
    if parts.len() == 0 {
        Seq::<char>::empty()
    } else if parts.len() == 1 {
        parts[0]
    } else {
        join2(parts.drop_last()) + "  "@ + parts.last()
    }
}

/// The line of tags under a listed note: `#tag` for each, two spaces apart.
pub fn tag_line(tags: &Vec<String>) -> (res: String)
    ensures
        res@ == join2(hashed(strings_view(tags@))),
{
    let ghost h = hashed(strings_view(tags@));
    let mut out: Vec<char> = Vec::new();
    let mut k: usize = 0;
    while k < tags.len()
        invariant
            k <= tags.len(),
            h == hashed(strings_view(tags@)),
            out@ == join2(h.take(k as int)),
        decreases tags.len() - k,
    {
        let ghost pre = h.take(k + 1);
        assert(pre.drop_last() =~= h.take(k as int));
        assert(pre.last() == seq!['#'] + tags@[k as int]@);
        let hash: Vec<char> = vec!['#'];
        assert(hash@ =~= seq!['#']);
        let item = concat(&hash, &chars_of(tags[k].as_str()));
        if k > 0 {
            out = concat(&concat(&out, &text("  ")), &item);
            assert(join2(pre) == join2(pre.drop_last()) + "  "@ + pre.last());
        } else {
            out = item;
            assert(pre[0] == pre.last());
        }
        k = k + 1;
    }
    assert(h.take(tags.len() as int) =~= h);
    string_of(&out)
}

/// `s` with its first `~` replaced by `home` (`str::replacen` with a count
/// of one).
pub open spec fn replace_first_tilde(s: Seq<char>, home: Seq<char>) -> Seq<char> {
    match find_spec(s, seq!['~']) {
        Some(i) => s.take(i) + home + s.skip(i + 1),
        None => s,
    }
}

/// What `cb ls PATH` lists: a path starting with `/` or `~` is taken from
/// the home directory (its first `~` replaced by it), anything else lies in
/// the vault. Without a home directory such a path cannot be resolved.
pub open spec fn listing_target_spec(path: Seq<char>, home: Option<Seq<char>>, root: Seq<char>) -> Option<
    Seq<char>,
> {
    if path.len() > 0 && (path[0] == '/' || path[0] == '~') {
        match home {
            Some(h) => Some(replace_first_tilde(path, h)),
            None => None,
        }
    } else {
        Some(joined_path(root, path))
    }
}

/// Where `cb ls PATH` looks; `None` when the path needs the home directory
/// and there is none.
pub fn listing_target(path: &str, home: Option<&str>, root: &str) -> (res: Option<String>)
    ensures
        match res {
            Some(t) => listing_target_spec(path@, crate::store::opt_view(home), root@) == Some(t@),
            None => listing_target_spec(path@, crate::store::opt_view(home), root@) is None,
        },
{
    let p = chars_of(path);
    if p.len() > 0 && (p[0] == '/' || p[0] == '~') {
        match home {
            Some(h) => {
                let tilde: Vec<char> = vec!['~'];
                assert(tilde@ =~= seq!['~']);
                match find_exec(&p, &tilde) {
                    Some(i) => {
                        proof {
                            crate::tags::lemma_find_bounds(p@, seq!['~'], 0);
                        }
                        let before = crate::text::slice_of(&p, 0, i);
                        let after = crate::text::slice_of(&p, i + 1, p.len());
                        assert(before@ =~= p@.take(i as int));
                        assert(after@ =~= p@.skip(i + 1));
                        Some(string_of(&concat(&concat(&before, &chars_of(h)), &after)))
                    },
                    None => Some(string_of(&p)),
                }
            },
            None => None,
        }
    } else {
        Some(crate::vault::join_path(root, path))
    }
}

} // verus!
