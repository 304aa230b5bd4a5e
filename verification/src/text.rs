//! Character-level text primitives: the mathematical models of the string
//! operations the library relies on (`lines`, `split`, `trim`, `find`, ...)
//! and executable versions proved against them.

use vstd::prelude::*;

verus! {

broadcast use vstd::string::group_string_axioms;

// ---------------------------------------------------------------------------
// Unicode character classes (std's tables, named)
// ---------------------------------------------------------------------------

/// Whether std's `char::is_alphanumeric` holds of `c`.
pub uninterp spec fn is_alphanumeric(c: char) -> bool;

/// Unicode's White_Space property, the class std's `char::is_whitespace`
/// tests (and `str::trim` and `str::split_whitespace` use): the controls
/// U+0009 to U+000D, the space, U+0085, U+00A0, U+1680, U+2000 to U+200A,
/// U+2028, U+2029, U+202F, U+205F and U+3000.
pub open spec fn is_whitespace(c: char) -> bool {
    let n = c as u32;
    (9 <= n <= 13) || n == 32 || n == 0x85 || n == 0xa0 || n == 0x1680 || (0x2000 <= n <= 0x200a)
        || n == 0x2028 || n == 0x2029 || n == 0x202f || n == 0x205f || n == 0x3000
}

/// The characters of std's `str::to_lowercase` applied to the text `s`.
pub uninterp spec fn lowercase(s: Seq<char>) -> Seq<char>;

/// An ASCII letter or digit.
pub open spec fn is_ascii_alnum(c: char) -> bool {
    ('a' <= c <= 'z') || ('A' <= c <= 'Z') || ('0' <= c <= '9')
}

/// Every character of `s` is ASCII.
pub open spec fn all_ascii(s: Seq<char>) -> bool {
    forall|i: int| 0 <= i < s.len() ==> (#[trigger] s[i] as u32) < 128
}

/// ASCII lower-casing of one character: `A`-`Z` to `a`-`z`, others kept.
pub open spec fn ascii_lower(c: char) -> char {
    if 'A' <= c <= 'Z' {
        ((c as u32) + 32) as char
    } else {
        c
    }
}

/// Calls `char::is_alphanumeric`. The contract names its result, since
/// Unicode's Alphabetic and Numeric tables are not restated here, and
/// states what std documents for ASCII: an ASCII character is alphanumeric
/// exactly when it is a letter or a digit.
#[verifier::external_body]
pub(crate) fn char_is_alphanumeric(c: char) -> (res: bool)
    ensures
        res == is_alphanumeric(c),
        (c as u32) < 128 ==> (res <==> is_ascii_alnum(c)),
{
    c.is_alphanumeric()
}

/// Whether `c` is white space (Unicode's White_Space property).
pub fn char_is_whitespace(c: char) -> (res: bool)
    ensures
        res == is_whitespace(c),
{
    let n = c as u32;
    (9 <= n && n <= 13) || n == 32 || n == 0x85 || n == 0xa0 || n == 0x1680 || (0x2000 <= n && n
        <= 0x200a) || n == 0x2028 || n == 0x2029 || n == 0x202f || n == 0x205f || n == 0x3000
}

/// Calls `str::to_lowercase` on the text made of `v`; the contract names the
/// result as a function of the characters alone (Unicode's case tables, the
/// final-sigma rule and multi-character mappings are not restated here),
/// and states what std documents for ASCII text: each of `A`-`Z` becomes
/// its lower-case letter and every other character stays.
#[verifier::external_body]
pub(crate) fn to_lowercase(v: &Vec<char>) -> (res: Vec<char>)
    ensures
        res@ == lowercase(v@),
        all_ascii(v@) ==> res@ == v@.map_values(|c: char| ascii_lower(c)),
{
    let s: String = v.iter().collect();
    s.to_lowercase().chars().collect()
}

/// Calls `String::push`.
#[verifier::external_body]
pub(crate) fn push_char(s: &mut String, c: char)
    ensures
        final(s)@ == old(s)@.push(c),
{
    s.push(c)
}

// ---------------------------------------------------------------------------
// Models
// ---------------------------------------------------------------------------

/// The views of a sequence of character vectors.
pub open spec fn seqs_of(v: Seq<Vec<char>>) -> Seq<Seq<char>> {
    v.map_values(|x: Vec<char>| x@)
}

/// `str::split` by a single character: `n` separators give `n + 1` pieces.
pub open spec fn split_spec(s: Seq<char>, d: char) -> Seq<Seq<char>>
    decreases s.len(),
{
    if s.len() == 0 {
        seq![Seq::<char>::empty()]
    } else {
        let init = split_spec(s.drop_last(), d);
        if s.last() == d {
            init.push(Seq::<char>::empty())
        } else {
            init.update(init.len() - 1, init.last().push(s.last()))
        }
    }
}

/// Joining pieces with a separator character.
pub open spec fn join_spec(parts: Seq<Seq<char>>, d: char) -> Seq<char>
    decreases parts.len(),
{
    if parts.len() == 0 {
        Seq::<char>::empty()
    } else if parts.len() == 1 {
        parts[0]
    } else {
        join_spec(parts.drop_last(), d).push(d) + parts.last()
    }
}

/// The non-empty pieces, in order.
pub open spec fn nonempty_parts(parts: Seq<Seq<char>>) -> Seq<Seq<char>>
    decreases parts.len(),
{
    if parts.len() == 0 {
        parts
    } else {
        let init = nonempty_parts(parts.drop_last());
        if parts.last().len() > 0 {
            init.push(parts.last())
        } else {
            init
        }
    }
}

/// A line with one trailing carriage return removed.
pub open spec fn strip_cr(l: Seq<char>) -> Seq<char> {
    if l.len() > 0 && l.last() == '\r' {
        l.drop_last()
    } else {
        l
    }
}

/// `str::lines`: split at `\n`, a `\r` before the `\n` is dropped, and a
/// final line ending is optional.
pub open spec fn lines_spec(s: Seq<char>) -> Seq<Seq<char>> {
    let p = split_spec(s, '\n');
    let body = p.drop_last().map_values(|l: Seq<char>| strip_cr(l));
    if p.last().len() == 0 {
        body
    } else {
        body.push(p.last())
    }
}

/// `p` is a prefix of `s`.
pub open spec fn is_prefix(p: Seq<char>, s: Seq<char>) -> bool {
    p.len() <= s.len() && s.subrange(0, p.len() as int) == p
}

/// `p` is a suffix of `s`.
pub open spec fn is_suffix(p: Seq<char>, s: Seq<char>) -> bool {
    p.len() <= s.len() && s.subrange(s.len() - p.len(), s.len() as int) == p
}

/// `p` occurs in `s` starting at index `i`.
pub open spec fn occurs_at(s: Seq<char>, p: Seq<char>, i: int) -> bool {
    0 <= i && i + p.len() <= s.len() && s.subrange(i, i + p.len()) == p
}

/// The first index at or after `i` where `p` occurs in `s`.
pub open spec fn find_from(s: Seq<char>, p: Seq<char>, i: int) -> Option<int>
    decreases s.len() + 1 - i,
{
    if i < 0 || i + p.len() > s.len() {
        None
    } else if occurs_at(s, p, i) {
        Some(i)
    } else {
        find_from(s, p, i + 1)
    }
}

/// `str::find`: the first index where `p` occurs in `s`.
pub open spec fn find_spec(s: Seq<char>, p: Seq<char>) -> Option<int> {
    find_from(s, p, 0)
}

/// `str::contains`.
pub open spec fn contains_spec(s: Seq<char>, p: Seq<char>) -> bool {
    find_spec(s, p) is Some
}

/// `str::trim_start`.
pub open spec fn trim_start_spec(s: Seq<char>) -> Seq<char>
    decreases s.len(),
{
    if s.len() > 0 && is_whitespace(s[0]) {
        trim_start_spec(s.drop_first())
    } else {
        s
    }
}

/// `str::trim_end`.
pub open spec fn trim_end_spec(s: Seq<char>) -> Seq<char>
    decreases s.len(),
{
    if s.len() > 0 && is_whitespace(s.last()) {
        trim_end_spec(s.drop_last())
    } else {
        s
    }
}

/// `str::trim`.
pub open spec fn trim_spec(s: Seq<char>) -> Seq<char> {
    trim_end_spec(trim_start_spec(s))
}

/// `str::replace` of one character by another.
pub open spec fn replace_char_spec(s: Seq<char>, a: char, b: char) -> Seq<char> {
    s.map_values(|c: char| if c == a { b } else { c })
}

/// The text after the last `d` (all of `s` when there is none): what
/// `rsplit(d).next()` gives.
pub open spec fn last_segment(s: Seq<char>, d: char) -> Seq<char> {
    split_spec(s, d).last()
}

/// `str::rsplit_once`.
pub open spec fn rsplit_once_spec(s: Seq<char>, d: char) -> Option<(Seq<char>, Seq<char>)> {
    let parts = split_spec(s, d);
    if parts.len() <= 1 {
        None
    } else {
        Some((join_spec(parts.drop_last(), d), parts.last()))
    }
}

/// `str::trim_start_matches` with a non-empty pattern: the pattern removed
/// from the front as often as it occurs there.
pub open spec fn trim_start_matches_spec(s: Seq<char>, p: Seq<char>) -> Seq<char>
    decreases s.len(),
{
    if p.len() > 0 && is_prefix(p, s) {
        trim_start_matches_spec(s.skip(p.len() as int), p)
    } else {
        s
    }
}

// ---------------------------------------------------------------------------
// Lemmas
// ---------------------------------------------------------------------------

pub proof fn lemma_split_len(s: Seq<char>, d: char)
    ensures
        split_spec(s, d).len() >= 1,
    decreases s.len(),
{
    if s.len() > 0 {
        lemma_split_len(s.drop_last(), d);
    }
}

/// A piece of a split never holds the separator.
pub proof fn lemma_split_parts_free(s: Seq<char>, d: char)
    ensures
        forall|k: int, j: int|
            0 <= k < split_spec(s, d).len() && 0 <= j < split_spec(s, d)[k].len()
                ==> #[trigger] split_spec(s, d)[k][j] != d,
    decreases s.len(),
{
    lemma_split_len(s, d);
    if s.len() > 0 {
        lemma_split_parts_free(s.drop_last(), d);
        lemma_split_len(s.drop_last(), d);
    }
}

/// Splitting and re-joining gives back the text.
pub proof fn lemma_join_split(s: Seq<char>, d: char)
    ensures
        join_spec(split_spec(s, d), d) == s,
    decreases s.len(),
{
    if s.len() > 0 {
        let t = s.drop_last();
        lemma_join_split(t, d);
        lemma_split_len(t, d);
        let init = split_spec(t, d);
        if s.last() == d {
            assert(init.push(Seq::<char>::empty()).drop_last() =~= init);
            assert(join_spec(init, d).push(d) + Seq::<char>::empty() =~= s);
        } else {
            let up = init.update(init.len() - 1, init.last().push(s.last()));
            if init.len() == 1 {
                assert(up[0] =~= s);
            } else {
                assert(up.drop_last() =~= init.drop_last());
                assert(join_spec(init.drop_last(), d).push(d) + init.last().push(s.last())
                    =~= (join_spec(init.drop_last(), d).push(d) + init.last()).push(s.last()));
            }
        }
    }
}

// ---------------------------------------------------------------------------
// Executable text operations
// ---------------------------------------------------------------------------

/// The characters of `s`, in order.
pub fn chars_of(s: &str) -> (res: Vec<char>)
    ensures
        res@ == s@,
{
    let mut out: Vec<char> = Vec::new();
    for c in it: s.chars()
        invariant
            out@ == it.seq().take(it.index() as int),
    {
        out.push(c);
    }
    assert(out@ =~= s@);
    out
}

/// The text made of `v`.
pub fn string_of(v: &Vec<char>) -> (res: String)
    ensures
        res@ == v@,
{
    let mut s = String::new();
    let mut i: usize = 0;
    while i < v.len()
        invariant
            i <= v.len(),
            s@ == v@.subrange(0, i as int),
        decreases v.len() - i,
    {
        push_char(&mut s, v[i]);
        i = i + 1;
        assert(s@ =~= v@.subrange(0, i as int));
    }
    assert(v@.subrange(0, v.len() as int) =~= v@);
    s
}

/// The characters of a string literal or borrowed text, as a vector.
pub fn text(s: &str) -> (res: Vec<char>)
    ensures
        res@ == s@,
{
    chars_of(s)
}

/// `a` followed by `b`.
pub fn concat(a: &Vec<char>, b: &Vec<char>) -> (res: Vec<char>)
    ensures
        res@ == a@ + b@,
{
    let mut out = a.clone();
    let mut i: usize = 0;
    while i < b.len()
        invariant
            i <= b.len(),
            out@ == a@ + b@.subrange(0, i as int),
        decreases b.len() - i,
    {
        out.push(b[i]);
        i = i + 1;
        assert(out@ =~= a@ + b@.subrange(0, i as int));
    }
    assert(b@.subrange(0, b.len() as int) =~= b@);
    out
}

/// Appends `b` to `a`.
pub fn append_all(a: &mut Vec<char>, b: &Vec<char>)
    ensures
        final(a)@ == old(a)@ + b@,
{
    let mut i: usize = 0;
    while i < b.len()
        invariant
            i <= b.len(),
            a@ == old(a)@ + b@.subrange(0, i as int),
        decreases b.len() - i,
    {
        a.push(b[i]);
        i = i + 1;
        assert(a@ =~= old(a)@ + b@.subrange(0, i as int));
    }
    assert(b@.subrange(0, b.len() as int) =~= b@);
}

/// The characters from `start` up to `end`.
pub fn slice_of(s: &Vec<char>, start: usize, end: usize) -> (res: Vec<char>)
    requires
        start <= end <= s.len(),
    ensures
        res@ == s@.subrange(start as int, end as int),
{
    let mut out: Vec<char> = Vec::new();
    let mut i = start;
    while i < end
        invariant
            start <= i <= end <= s.len(),
            out@ == s@.subrange(start as int, i as int),
        decreases end - i,
    {
        out.push(s[i]);
        i = i + 1;
        assert(out@ =~= s@.subrange(start as int, i as int));
    }
    out
}

/// Whether `a` and `b` hold the same characters.
pub fn same(a: &Vec<char>, b: &Vec<char>) -> (res: bool)
    ensures
        res == (a@ == b@),
{
    if a.len() != b.len() {
        return false;
    }
    let mut i: usize = 0;
    while i < a.len()
        invariant
            i <= a.len() == b.len(),
            a@.subrange(0, i as int) == b@.subrange(0, i as int),
        decreases a.len() - i,
    {
        if a[i] != b[i] {
            return false;
        }
        i = i + 1;
        assert(a@.subrange(0, i as int) =~= a@.subrange(0, i - 1).push(a@[i - 1]));
        assert(b@.subrange(0, i as int) =~= b@.subrange(0, i - 1).push(b@[i - 1]));
    }
    assert(a@ =~= a@.subrange(0, a.len() as int));
    assert(b@ =~= b@.subrange(0, b.len() as int));
    true
}

/// Whether `p` occurs in `s` at index `i`.
pub fn occurs_at_exec(s: &Vec<char>, p: &Vec<char>, i: usize) -> (res: bool)
    ensures
        res == occurs_at(s@, p@, i as int),
{
    if i > s.len() || p.len() > s.len() - i {
        return false;
    }
    let mut k: usize = 0;
    while k < p.len()
        invariant
            i + p.len() <= s.len(),
            k <= p.len(),
            s@.subrange(i as int, i + k) == p@.subrange(0, k as int),
        decreases p.len() - k,
    {
        if s[i + k] != p[k] {
            assert(s@.subrange(i as int, i + p.len())[k as int] != p@[k as int]);
            return false;
        }
        k = k + 1;
        assert(s@.subrange(i as int, i + k) =~= s@.subrange(i as int, i + k - 1).push(s@[i + k - 1]));
        assert(p@.subrange(0, k as int) =~= p@.subrange(0, k - 1).push(p@[k - 1]));
    }
    assert(p@.subrange(0, p.len() as int) =~= p@);
    true
}

/// `str::starts_with`.
pub fn starts_with(s: &Vec<char>, p: &Vec<char>) -> (res: bool)
    ensures
        res == is_prefix(p@, s@),
{
    occurs_at_exec(s, p, 0)
}

/// `str::ends_with`.
pub fn ends_with(s: &Vec<char>, p: &Vec<char>) -> (res: bool)
    ensures
        res == is_suffix(p@, s@),
{
    if p.len() > s.len() {
        false
    } else {
        occurs_at_exec(s, p, s.len() - p.len())
    }
}

/// `str::find` from index `from`.
pub fn find_exec_from(s: &Vec<char>, p: &Vec<char>, from: usize) -> (res: Option<usize>)
    ensures
        res matches Some(i) ==> find_from(s@, p@, from as int) == Some(i as int),
        res is None ==> find_from(s@, p@, from as int) is None,
{
    let mut i = from;
    while i <= s.len()
        invariant
            from <= i,
            find_from(s@, p@, from as int) == find_from(s@, p@, i as int),
        decreases s.len() + 1 - i,
    {
        if p.len() > s.len() - i {
            return None;
        }
        if occurs_at_exec(s, p, i) {
            return Some(i);
        }
        proof {
            if p.len() == 0 {
                assert(s@.subrange(i as int, i as int) =~= p@);
            }
        }
        i = i + 1;
    }
    None
}

/// `str::find`.
pub fn find_exec(s: &Vec<char>, p: &Vec<char>) -> (res: Option<usize>)
    ensures
        res matches Some(i) ==> find_spec(s@, p@) == Some(i as int),
        res is None ==> find_spec(s@, p@) is None,
{
    find_exec_from(s, p, 0)
}

/// `str::contains`.
pub fn contains(s: &Vec<char>, p: &Vec<char>) -> (res: bool)
    ensures
        res == contains_spec(s@, p@),
{
    find_exec(s, p).is_some()
}

/// Whether the character `c` occurs in `s`.
pub fn has_char(s: &Vec<char>, c: char) -> (res: bool)
    ensures
        res == s@.contains(c),
{
    let mut i: usize = 0;
    while i < s.len()
        invariant
            i <= s.len(),
            forall|j: int| 0 <= j < i ==> s@[j] != c,
        decreases s.len() - i,
    {
        if s[i] == c {
            return true;
        }
        i = i + 1;
    }
    false
}

proof fn lemma_trim_start_skip(s: Seq<char>, i: int)
    requires
        0 <= i <= s.len(),
        forall|j: int| 0 <= j < i ==> is_whitespace(#[trigger] s[j]),
    ensures
        trim_start_spec(s) == trim_start_spec(s.skip(i)),
    decreases i,
{
    if i > 0 {
        assert(s.skip(1).skip(i - 1) =~= s.skip(i));
        lemma_trim_start_skip(s.drop_first(), i - 1);
    } else {
        assert(s.skip(0) =~= s);
    }
}

proof fn lemma_trim_end_take(s: Seq<char>, i: int)
    requires
        0 <= i <= s.len(),
        forall|j: int| i <= j < s.len() ==> is_whitespace(#[trigger] s[j]),
    ensures
        trim_end_spec(s) == trim_end_spec(s.take(i)),
    decreases s.len() - i,
{
    if i < s.len() {
        assert(s.drop_last().take(i) =~= s.take(i));
        lemma_trim_end_take(s.drop_last(), i);
    } else {
        assert(s.take(i) =~= s);
    }
}

/// `str::trim`.
pub fn trim(s: &Vec<char>) -> (res: Vec<char>)
    ensures
        res@ == trim_spec(s@),
{
    let mut a: usize = 0;
    while a < s.len() && char_is_whitespace(s[a])
        invariant
            a <= s.len(),
            forall|j: int| 0 <= j < a ==> is_whitespace(#[trigger] s@[j]),
        decreases s.len() - a,
    {
        a = a + 1;
    }
    proof {
        lemma_trim_start_skip(s@, a as int);
    }
    let mut b: usize = s.len();
    while b > a && char_is_whitespace(s[b - 1])
        invariant
            a <= b <= s.len(),
            forall|j: int| b <= j < s.len() ==> is_whitespace(#[trigger] s@[j]),
        decreases b,
    {
        b = b - 1;
    }
    let ghost t = s@.skip(a as int);
    proof {
        assert(trim_start_spec(t) == t) by {
            if t.len() > 0 {
                assert(t[0] == s@[a as int]);
            }
        }
        assert forall|j: int| b - a <= j < t.len() implies is_whitespace(#[trigger] t[j]) by {
            assert(t[j] == s@[a + j]);
        }
        lemma_trim_end_take(t, b - a);
        let u = t.take(b - a);
        assert(trim_end_spec(u) == u) by {
            if u.len() > 0 {
                assert(u.last() == s@[b - 1]);
            }
        }
        assert(u =~= s@.subrange(a as int, b as int));
    }
    slice_of(s, a, b)
}

/// `str::replace` of one character by another.
pub fn replace_char(s: &Vec<char>, a: char, b: char) -> (res: Vec<char>)
    ensures
        res@ == replace_char_spec(s@, a, b),
{
    let mut out: Vec<char> = Vec::new();
    let mut i: usize = 0;
    while i < s.len()
        invariant
            i <= s.len(),
            out@ == replace_char_spec(s@.subrange(0, i as int), a, b),
        decreases s.len() - i,
    {
        let c = s[i];
        out.push(if c == a { b } else { c });
        i = i + 1;
        assert(out@ =~= replace_char_spec(s@.subrange(0, i as int), a, b));
    }
    assert(s@.subrange(0, s.len() as int) =~= s@);
    out
}

proof fn lemma_split_step(s: Seq<char>, i: int, d: char)
    requires
        0 <= i < s.len(),
    ensures
        split_spec(s.take(i + 1), d) == (if s[i] == d {
            split_spec(s.take(i), d).push(Seq::<char>::empty())
        } else {
            split_spec(s.take(i), d).update(
                split_spec(s.take(i), d).len() - 1,
                split_spec(s.take(i), d).last().push(s[i]),
            )
        }),
{
    assert(s.take(i + 1).drop_last() =~= s.take(i));
}

/// `str::split` by a character.
pub fn split(s: &Vec<char>, d: char) -> (res: Vec<Vec<char>>)
    ensures
        seqs_of(res@) == split_spec(s@, d),
{
    let mut done: Vec<Vec<char>> = Vec::new();
    let mut cur: Vec<char> = Vec::new();
    let mut i: usize = 0;
    proof {
        assert(s@.take(0) =~= Seq::<char>::empty());
    }
    while i < s.len()
        invariant
            i <= s.len(),
            seqs_of(done@).push(cur@) == split_spec(s@.take(i as int), d),
        decreases s.len() - i,
    {
        proof {
            lemma_split_step(s@, i as int, d);
        }
        let c = s[i];
        if c == d {
            let ghost before = seqs_of(done@).push(cur@);
            done.push(cur);
            cur = Vec::new();
            assert(seqs_of(done@).push(cur@) =~= before.push(Seq::<char>::empty()));
        } else {
            let ghost before = seqs_of(done@).push(cur@);
            cur.push(c);
            assert(seqs_of(done@).push(cur@) =~= before.update(before.len() - 1, before.last().push(c)));
        }
        i = i + 1;
    }
    let ghost before = seqs_of(done@).push(cur@);
    done.push(cur);
    assert(seqs_of(done@) =~= before);
    assert(s@.take(s.len() as int) =~= s@);
    done
}

/// `str::lines`.
pub fn lines(s: &Vec<char>) -> (res: Vec<Vec<char>>)
    ensures
        seqs_of(res@) == lines_spec(s@),
{
    let parts = split(s, '\n');
    proof {
        lemma_split_len(s@, '\n');
    }
    let mut out: Vec<Vec<char>> = Vec::new();
    let n = parts.len();
    let mut k: usize = 0;
    while k + 1 < n
        invariant
            n == parts.len() >= 1,
            k + 1 <= n,
            seqs_of(parts@) == split_spec(s@, '\n'),
            seqs_of(out@) == split_spec(s@, '\n').take(k as int).map_values(
                |l: Seq<char>| strip_cr(l),
            ),
        decreases n - k,
    {
        let p = &parts[k];
        let line = if p.len() > 0 && p[p.len() - 1] == '\r' {
            slice_of(p, 0, p.len() - 1)
        } else {
            p.clone()
        };
        let ghost sp = split_spec(s@, '\n');
        proof {
            assert(p@ == seqs_of(parts@)[k as int]);
            assert(p@ == sp[k as int]);
            if p.len() > 0 && p@[p.len() - 1] == '\r' {
                assert(line@ =~= p@.drop_last());
            }
            assert(line@ == strip_cr(sp[k as int]));
        }
        let ghost before = seqs_of(out@);
        out.push(line);
        proof {
            assert(seqs_of(out@) =~= before.push(line@));
            assert(sp.take(k as int + 1) =~= sp.take(k as int).push(sp[k as int]));
            assert(sp.take(k as int + 1).map_values(|l: Seq<char>| strip_cr(l)) =~= sp.take(
                k as int,
            ).map_values(|l: Seq<char>| strip_cr(l)).push(strip_cr(sp[k as int])));
        }
        k = k + 1;
    }
    let ghost p = split_spec(s@, '\n');
    assert(p.take(k as int) =~= p.drop_last());
    let last = &parts[n - 1];
    assert(last@ == p.last());
    if last.len() > 0 {
        out.push(last.clone());
        assert(seqs_of(out@) =~= lines_spec(s@));
    } else {
        assert(seqs_of(out@) =~= lines_spec(s@));
    }
    out
}

/// Joins pieces with a separator character.
pub fn join(parts: &Vec<Vec<char>>, d: char) -> (res: Vec<char>)
    ensures
        res@ == join_spec(seqs_of(parts@), d),
{
    let mut out: Vec<char> = Vec::new();
    let mut k: usize = 0;
    while k < parts.len()
        invariant
            k <= parts.len(),
            out@ == join_spec(seqs_of(parts@).take(k as int), d),
        decreases parts.len() - k,
    {
        let ghost ps = seqs_of(parts@).take(k as int + 1);
        assert(ps.drop_last() =~= seqs_of(parts@).take(k as int));
        if k > 0 {
            out.push(d);
        }
        append_all(&mut out, &parts[k]);
        k = k + 1;
        proof {
            if k == 1 {
                assert(out@ =~= ps[0]);
            } else {
                assert(out@ =~= join_spec(ps.drop_last(), d).push(d) + ps.last());
            }
        }
    }
    assert(seqs_of(parts@).take(parts.len() as int) =~= seqs_of(parts@));
    out
}

/// `str::trim_start_matches` with a non-empty pattern.
pub fn trim_start_matches(s: &Vec<char>, p: &Vec<char>) -> (res: Vec<char>)
    requires
        p.len() > 0,
    ensures
        res@ == trim_start_matches_spec(s@, p@),
{
    let mut i: usize = 0;
    assert(s@.skip(0) =~= s@);
    while occurs_at_exec(s, p, i)
        invariant
            i <= s.len(),
            p.len() > 0,
            trim_start_matches_spec(s@, p@) == trim_start_matches_spec(s@.skip(i as int), p@),
        decreases s.len() - i,
    {
        proof {
            let t = s@.skip(i as int);
            assert(t.subrange(0, p.len() as int) =~= s@.subrange(i as int, i + p.len()));
            assert(t.skip(p.len() as int) =~= s@.skip(i + p.len()));
        }
        i = i + p.len();
    }
    proof {
        let t = s@.skip(i as int);
        if is_prefix(p@, t) {
            assert(t.subrange(0, p.len() as int) =~= s@.subrange(i as int, i + p.len()));
        }
    }
    slice_of(s, i, s.len())
}


// ---------------------------------------------------------------------------
// Whitespace-separated words, and first occurrences
// ---------------------------------------------------------------------------

/// `str::split` at every whitespace character.
pub open spec fn split_ws_spec(s: Seq<char>) -> Seq<Seq<char>>
    decreases s.len(),
{
    if s.len() == 0 {
        seq![Seq::<char>::empty()]
    } else {
        let init = split_ws_spec(s.drop_last());
        if is_whitespace(s.last()) {
            init.push(Seq::<char>::empty())
        } else {
            init.update(init.len() - 1, init.last().push(s.last()))
        }
    }
}

/// `str::split_whitespace`: the non-empty runs of non-whitespace characters.
pub open spec fn words_spec(s: Seq<char>) -> Seq<Seq<char>> {
    nonempty_parts(split_ws_spec(s))
}

/// The items in order of first occurrence, each once.
pub open spec fn dedup_spec(s: Seq<Seq<char>>) -> Seq<Seq<char>>
    decreases s.len(),
{
    if s.len() == 0 {
        s
    } else {
        let init = dedup_spec(s.drop_last());
        if init.contains(s.last()) {
            init
        } else {
            init.push(s.last())
        }
    }
}

pub proof fn lemma_split_ws_len(s: Seq<char>)
    ensures
        split_ws_spec(s).len() >= 1,
    decreases s.len(),
{
    if s.len() > 0 {
        lemma_split_ws_len(s.drop_last());
    }
}

/// `str::split_whitespace`.
pub fn split_whitespace(s: &Vec<char>) -> (res: Vec<Vec<char>>)
    ensures
        seqs_of(res@) == words_spec(s@),
{
    let mut done: Vec<Vec<char>> = Vec::new();
    let mut cur: Vec<char> = Vec::new();
    let mut i: usize = 0;
    proof {
        assert(s@.take(0) =~= Seq::<char>::empty());
    }
    while i < s.len()
        invariant
            i <= s.len(),
            seqs_of(done@).push(cur@) == split_ws_spec(s@.take(i as int)),
        decreases s.len() - i,
    {
        assert(s@.take(i + 1).drop_last() =~= s@.take(i as int));
        let c = s[i];
        let ghost before = seqs_of(done@).push(cur@);
        if char_is_whitespace(c) {
            done.push(cur);
            cur = Vec::new();
            assert(seqs_of(done@).push(cur@) =~= before.push(Seq::<char>::empty()));
        } else {
            cur.push(c);
            assert(seqs_of(done@).push(cur@) =~= before.update(before.len() - 1, before.last().push(c)));
        }
        i = i + 1;
    }
    let ghost all = seqs_of(done@).push(cur@);
    done.push(cur);
    assert(seqs_of(done@) =~= all);
    assert(s@.take(s.len() as int) =~= s@);
    keep_nonempty(&done)
}

/// Drops the empty pieces.
pub fn keep_nonempty(parts: &Vec<Vec<char>>) -> (res: Vec<Vec<char>>)
    ensures
        seqs_of(res@) == nonempty_parts(seqs_of(parts@)),
{
    let mut out: Vec<Vec<char>> = Vec::new();
    let mut k: usize = 0;
    while k < parts.len()
        invariant
            k <= parts.len(),
            seqs_of(out@) == nonempty_parts(seqs_of(parts@).take(k as int)),
        decreases parts.len() - k,
    {
        let ghost pre = seqs_of(parts@).take(k as int + 1);
        assert(pre.drop_last() =~= seqs_of(parts@).take(k as int));
        if parts[k].len() > 0 {
            let ghost before = seqs_of(out@);
            let item = parts[k].clone();
            out.push(item);
            assert(seqs_of(out@) =~= before.push(item@));
        }
        k = k + 1;
    }
    assert(seqs_of(parts@).take(parts.len() as int) =~= seqs_of(parts@));
    out
}

/// Whether `item` is one of `items`.
pub fn contains_item(items: &Vec<Vec<char>>, item: &Vec<char>) -> (res: bool)
    ensures
        res == seqs_of(items@).contains(item@),
{
    let mut k: usize = 0;
    while k < items.len()
        invariant
            k <= items.len(),
            forall|j: int| 0 <= j < k ==> seqs_of(items@)[j] != item@,
        decreases items.len() - k,
    {
        if same(&items[k], item) {
            assert(seqs_of(items@)[k as int] == item@);
            return true;
        }
        k = k + 1;
    }
    false
}

/// Adds `item` unless present; keeps `items` equal to the first
/// occurrences of what was offered.
pub fn push_new(items: &mut Vec<Vec<char>>, item: Vec<char>, offered: Ghost<Seq<Seq<char>>>)
    requires
        seqs_of(old(items)@) == dedup_spec(offered@),
    ensures
        seqs_of(final(items)@) == dedup_spec(offered@.push(item@)),
{
    assert(offered@.push(item@).drop_last() =~= offered@);
    if !contains_item(items, &item) {
        let ghost before = seqs_of(items@);
        let ghost v = item@;
        items.push(item);
        assert(seqs_of(items@) =~= before.push(v));
    }
}

// ---------------------------------------------------------------------------
// Numbers as text
// ---------------------------------------------------------------------------

/// The decimal digit for `d` (below ten).
pub open spec fn digit_char(d: nat) -> char {
    if d == 0 {
        '0'
    } else if d == 1 {
        '1'
    } else if d == 2 {
        '2'
    } else if d == 3 {
        '3'
    } else if d == 4 {
        '4'
    } else if d == 5 {
        '5'
    } else if d == 6 {
        '6'
    } else if d == 7 {
        '7'
    } else if d == 8 {
        '8'
    } else {
        '9'
    }
}

/// `n` written in decimal, without leading zeros.
pub open spec fn decimal_spec(n: nat) -> Seq<char>
    decreases n,
{
    if n < 10 {
        seq![digit_char(n)]
    } else {
        decimal_spec(n / 10).push(digit_char(n % 10))
    }
}

fn digit(d: u64) -> (res: char)
    requires
        d < 10,
    ensures
        res == digit_char(d as nat),
{
    if d == 0 {
        '0'
    } else if d == 1 {
        '1'
    } else if d == 2 {
        '2'
    } else if d == 3 {
        '3'
    } else if d == 4 {
        '4'
    } else if d == 5 {
        '5'
    } else if d == 6 {
        '6'
    } else if d == 7 {
        '7'
    } else if d == 8 {
        '8'
    } else {
        '9'
    }
}

/// `n` written in decimal.
pub fn decimal(n: u64) -> (res: Vec<char>)
    ensures
        res@ == decimal_spec(n as nat),
    decreases n,
{
    if n < 10 {
        let v = vec![digit(n)];
        assert(v@ =~= seq![digit_char(n as nat)]);
        v
    } else {
        let mut v = decimal(n / 10);
        v.push(digit(n % 10));
        v
    }
}


/// First occurrences hold each item once.
pub proof fn lemma_dedup_distinct(s: Seq<Seq<char>>)
    ensures
        forall|i: int, j: int|
            0 <= i < j < dedup_spec(s).len() ==> #[trigger] dedup_spec(s)[i] != #[trigger] dedup_spec(s)[j],
    decreases s.len(),
{
    if s.len() > 0 {
        lemma_dedup_distinct(s.drop_last());
        let init = dedup_spec(s.drop_last());
        if !init.contains(s.last()) {
            let r = init.push(s.last());
            assert forall|i: int, j: int| 0 <= i < j < r.len() implies #[trigger] r[i] != #[trigger] r[j] by {
                if j == r.len() - 1 {
                    assert(r[i] == init[i]);
                    if r[i] == r[j] {
                        assert(init.contains(s.last()));
                    }
                } else {
                    assert(r[i] == init[i] && r[j] == init[j]);
                }
            }
        }
    }
}

/// First occurrences hold exactly the items offered.
pub proof fn lemma_dedup_members(s: Seq<Seq<char>>)
    ensures
        forall|x: Seq<char>| #[trigger] dedup_spec(s).contains(x) <==> s.contains(x),
    decreases s.len(),
{
    if s.len() > 0 {
        let t = s.drop_last();
        lemma_dedup_members(t);
        let init = dedup_spec(t);
        assert forall|x: Seq<char>| #[trigger] dedup_spec(s).contains(x) <==> s.contains(x) by {
            if s.contains(x) {
                let k = choose|k: int| 0 <= k < s.len() && s[k] == x;
                if k < s.len() - 1 {
                    assert(t[k] == x);
                    assert(t.contains(x));
                    assert(init.contains(x));
                    if !init.contains(s.last()) {
                        let i = choose|i: int| 0 <= i < init.len() && init[i] == x;
                        assert(init.push(s.last())[i] == x);
                    }
                } else {
                    if !init.contains(s.last()) {
                        assert(init.push(s.last())[init.len() as int] == x);
                    }
                }
            }
            if dedup_spec(s).contains(x) {
                let i = choose|i: int| 0 <= i < dedup_spec(s).len() && dedup_spec(s)[i] == x;
                if init.contains(s.last()) || i < init.len() {
                    assert(init[i] == x);
                    assert(init.contains(x));
                    let k = choose|k: int| 0 <= k < t.len() && t[k] == x;
                    assert(s[k] == x);
                } else {
                    assert(s[s.len() - 1] == x);
                }
            }
        }
    }
}

} // verus!
