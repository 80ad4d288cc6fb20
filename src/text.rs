//! Character-sequence helpers shared by the parser and the router.
use vstd::prelude::*;
use vstd::string::StringExecFns;
use vstd::slice::{slice_subrange, slice_to_vec};
use vstd::utf8::{decode_utf8, valid_utf8};

verus! {

/// Relies on `String::push`: appends one character at the end.
#[verifier::external_body]
fn push_char(s: &mut String, c: char)
    ensures
        final(s)@ == old(s)@.push(c),
{
    s.push(c)
}

/// The characters of `s`, in order.
pub fn chars_of(s: &str) -> (r: Vec<char>)
    ensures
        r@ == s@,
{
    let mut r: Vec<char> = Vec::new();
    for c in it: s.chars()
        invariant
            r@ == it.seq().take(it.index() as int),
    {
        r.push(c);
    }
    r
}

/// A string holding the characters `v[lo..hi]`.
pub fn string_of(v: &[char], lo: usize, hi: usize) -> (r: String)
    requires
        lo <= hi <= v@.len(),
    ensures
        r@ == v@.subrange(lo as int, hi as int),
{
    let mut r = String::new();
    let mut i: usize = lo;
    while i < hi
        invariant
            lo <= i <= hi <= v@.len(),
            r@ == v@.subrange(lo as int, i as int),
        decreases hi - i,
    {
        push_char(&mut r, v[i]);
        assert(v@.subrange(lo as int, i + 1) == v@.subrange(lo as int, i as int).push(v@[i as int]));
        i = i + 1;
    }
    r
}


/// `pat` occurs in `s` at position `i`.
pub open spec fn occurs_at(s: Seq<char>, pat: Seq<char>, i: int) -> bool {
    0 <= i && i + pat.len() <= s.len() && s.subrange(i, i + pat.len()) == pat
}

/// Position of the leftmost occurrence of `pat` in `s`.
pub open spec fn find_first(s: Seq<char>, pat: Seq<char>) -> Option<int>
    decreases s.len(),
{
    if pat.len() == 0 {
        Some(0)
    } else if s.len() < pat.len() {
        None
    } else if s.take(pat.len() as int) == pat {
        Some(0)
    } else {
        match find_first(s.skip(1), pat) {
            Some(j) => Some(j + 1),
            None => None,
        }
    }
}

/// The leftmost occurrence lies inside `s`.
pub proof fn lemma_find_first_bounds(s: Seq<char>, pat: Seq<char>)
    ensures
        find_first(s, pat) matches Some(i) ==> 0 <= i && i + pat.len() <= s.len(),
    decreases s.len(),
{
    if pat.len() > 0 && s.len() >= pat.len() && s.take(pat.len() as int) != pat {
        lemma_find_first_bounds(s.skip(1), pat);
    }
}

/// `s` holds `pat` somewhere.
pub open spec fn contains(s: Seq<char>, pat: Seq<char>) -> bool {
    find_first(s, pat) is Some
}

/// `s` begins with `pat`.
pub open spec fn starts_with(s: Seq<char>, pat: Seq<char>) -> bool {
    pat.len() <= s.len() && s.take(pat.len() as int) == pat
}

/// Puts `p` in front of the first piece of `parts`.
pub open spec fn prepend(p: Seq<char>, parts: Seq<Seq<char>>) -> Seq<Seq<char>> {
    parts.update(0, p + parts[0])
}

/// The pieces of `s` between the occurrences of `pat`, found left to right
/// without overlap, as `str::split` yields them for a non-empty pattern.
pub open spec fn split_seq(s: Seq<char>, pat: Seq<char>) -> Seq<Seq<char>>
    decreases s.len(),
{
    if pat.len() == 0 || s.len() < pat.len() {
        seq![s]
    } else if s.take(pat.len() as int) == pat {
        seq![Seq::empty()] + split_seq(s.skip(pat.len() as int), pat)
    } else {
        prepend(seq![s[0]], split_seq(s.skip(1), pat))
    }
}

pub proof fn lemma_split_nonempty(s: Seq<char>, pat: Seq<char>)
    ensures
        split_seq(s, pat).len() >= 1,
    decreases s.len(),
{
    if pat.len() == 0 || s.len() < pat.len() {
    } else if s.take(pat.len() as int) == pat {
        lemma_split_nonempty(s.skip(pat.len() as int), pat);
    } else {
        lemma_split_nonempty(s.skip(1), pat);
    }
}

/// Splitting text that holds no occurrence of `pat` gives the text back.
pub proof fn lemma_split_none(s: Seq<char>, pat: Seq<char>)
    requires
        forall|j: int| !occurs_at(s, pat, j),
    ensures
        split_seq(s, pat) == seq![s],
    decreases s.len(),
{
    if pat.len() == 0 || s.len() < pat.len() {
    } else {
        assert(s.take(pat.len() as int) =~= s.subrange(0, pat.len() as int));
        assert(!occurs_at(s, pat, 0));
        let t = s.skip(1);
        assert forall|j: int| !occurs_at(t, pat, j) by {
            if occurs_at(t, pat, j) {
                assert(s.subrange(j + 1, j + 1 + pat.len()) =~= t.subrange(j, j + pat.len()));
                assert(occurs_at(s, pat, j + 1));
            }
        }
        lemma_split_none(t, pat);
        assert(seq![s[0]] + t =~= s);
    }
}

/// No occurrence of `pat` in `s` starts before position `n`.
pub open spec fn no_match_before(s: Seq<char>, pat: Seq<char>, n: int) -> bool {
    forall|j: int| 0 <= j < n ==> !occurs_at(s, pat, j)
}

/// Text in which no occurrence of `pat` starts, followed by `pat`, splits
/// off as one piece.
pub proof fn lemma_split_prefix(a: Seq<char>, b: Seq<char>, pat: Seq<char>)
    requires
        pat.len() > 0,
        no_match_before(a + pat + b, pat, a.len() as int),
    ensures
        split_seq(a + pat + b, pat) == seq![a] + split_seq(b, pat),
    decreases a.len(),
{
    let s = a + pat + b;
    if a.len() == 0 {
        assert(s =~= pat + b);
        assert(s.take(pat.len() as int) =~= pat);
        assert(s.skip(pat.len() as int) =~= b);
        assert(a =~= Seq::<char>::empty());
    } else {
        assert(s.take(pat.len() as int) =~= s.subrange(0, pat.len() as int));
        assert(!occurs_at(s, pat, 0));
        let t = a.skip(1);
        assert(s.skip(1) =~= t + pat + b);
        assert forall|j: int| 0 <= j < t.len() implies !occurs_at(t + pat + b, pat, j) by {
            if occurs_at(t + pat + b, pat, j) {
                assert(s.subrange(j + 1, j + 1 + pat.len()) =~= (t + pat + b).subrange(j, j + pat.len()));
                assert(occurs_at(s, pat, j + 1));
            }
        }
        lemma_split_prefix(t, b, pat);
        assert(seq![s[0]] + t =~= a);
        assert(prepend(seq![s[0]], seq![t] + split_seq(b, pat)) =~= seq![a] + split_seq(b, pat));
    }
}

/// No occurrence of `pat` starts inside text that lacks its first character.
pub proof fn lemma_no_match_in_chars(a: Seq<char>, b: Seq<char>, pat: Seq<char>)
    requires
        pat.len() > 0,
        forall|j: int| 0 <= j < a.len() ==> a[j] != pat[0],
    ensures
        no_match_before(a + b, pat, a.len() as int),
{
    assert forall|j: int| 0 <= j < a.len() implies !occurs_at(a + b, pat, j) by {
        if occurs_at(a + b, pat, j) {
            assert((a + b).subrange(j, j + pat.len())[0] == (a + b)[j]);
        }
    }
}

/// For a pattern of two different characters, no occurrence starts inside
/// text that holds none, when the pattern follows that text.
pub proof fn lemma_no_match_in_pair(a: Seq<char>, b: Seq<char>, pat: Seq<char>)
    requires
        pat.len() == 2,
        pat[0] != pat[1],
        forall|j: int| !occurs_at(a, pat, j),
    ensures
        no_match_before(a + pat + b, pat, a.len() as int),
{
    let s = a + pat + b;
    assert forall|j: int| 0 <= j < a.len() implies !occurs_at(s, pat, j) by {
        if occurs_at(s, pat, j) {
            if j + 2 <= a.len() {
                assert(s.subrange(j, j + 2) =~= a.subrange(j, j + 2));
                assert(occurs_at(a, pat, j));
            } else {
                assert(s.subrange(j, j + 2)[1] == s[j + 1]);
                assert(s[j + 1] == pat[0]);
            }
        }
    }
}

/// When no occurrence starts inside `p`, the first occurrence in `p + s` is
/// the first in `s`, moved by the length of `p`.
pub proof fn lemma_find_first_shift(p: Seq<char>, s: Seq<char>, pat: Seq<char>)
    requires
        pat.len() > 0,
        no_match_before(p + s, pat, p.len() as int),
    ensures
        find_first(p + s, pat) == match find_first(s, pat) {
            Some(i) => Some(i + p.len()),
            None => None::<int>,
        },
    decreases p.len(),
{
    let x = p + s;
    if p.len() == 0 {
        assert(x =~= s);
    } else if x.len() < pat.len() {
    } else {
        assert(x.take(pat.len() as int) =~= x.subrange(0, pat.len() as int));
        assert(!occurs_at(x, pat, 0));
        let q = p.skip(1);
        assert(x.skip(1) =~= q + s);
        assert forall|j: int| 0 <= j < q.len() implies !occurs_at(q + s, pat, j) by {
            if occurs_at(q + s, pat, j) {
                assert(x.subrange(j + 1, j + 1 + pat.len()) =~= (q + s).subrange(j, j + pat.len()));
                assert(occurs_at(x, pat, j + 1));
            }
        }
        lemma_find_first_shift(q, s, pat);
    }
}

/// Each line followed by a line end.
pub open spec fn lines_text(ls: Seq<Seq<char>>, end: Seq<char>) -> Seq<char>
    decreases ls.len(),
{
    if ls.len() == 0 {
        Seq::empty()
    } else {
        ls[0] + end + lines_text(ls.skip(1), end)
    }
}

/// Lines that do not hold the first character of the line end split back
/// into themselves.
pub proof fn lemma_split_lines(ls: Seq<Seq<char>>, end: Seq<char>, tail: Seq<char>)
    requires
        end.len() > 0,
        forall|i: int, j: int| 0 <= i < ls.len() && 0 <= j < ls[i].len() ==> ls[i][j] != end[0],
    ensures
        split_seq(lines_text(ls, end) + tail, end) == ls + split_seq(tail, end),
    decreases ls.len(),
{
    if ls.len() == 0 {
        assert(lines_text(ls, end) + tail =~= tail);
        assert(ls + split_seq(tail, end) =~= split_seq(tail, end));
    } else {
        let rest = ls.skip(1);
        assert forall|i: int, j: int| 0 <= i < rest.len() && 0 <= j < rest[i].len() implies rest[i][j] != end[0] by {
            assert(rest[i] == ls[i + 1]);
        }
        lemma_split_lines(rest, end, tail);
        assert(lines_text(ls, end) + tail =~= ls[0] + end + (lines_text(rest, end) + tail));
        lemma_no_match_in_chars(ls[0], end + (lines_text(rest, end) + tail), end);
        assert(ls[0] + (end + (lines_text(rest, end) + tail)) =~= ls[0] + end + (lines_text(rest, end) + tail));
        lemma_split_prefix(ls[0], lines_text(rest, end) + tail, end);
        assert(seq![ls[0]] + (rest + split_seq(tail, end)) =~= ls + split_seq(tail, end));
    }
}

/// `pat` occurs in `s` at position `i`.
fn occurs_at_exec(s: &[char], pat: &[char], i: usize) -> (r: bool)
    requires
        i <= s@.len(),
    ensures
        r == (i + pat@.len() <= s@.len() && s@.subrange(i as int, i + pat@.len()) == pat@),
{
    let n = s.len();
    if pat.len() > n - i {
        return false;
    }
    let mut j: usize = 0;
    while j < pat.len()
        invariant
            n == s@.len(),
            i + pat@.len() <= s@.len(),
            j <= pat@.len(),
            forall|k: int| 0 <= k < j ==> s@[i + k] == pat@[k],
        decreases pat@.len() - j,
    {
        assert(i + j < s@.len());
        if s[i + j] != pat[j] {
            assert(s@.subrange(i as int, i + pat@.len())[j as int] != pat@[j as int]);
            return false;
        }
        j = j + 1;
    }
    assert(s@.subrange(i as int, i + pat@.len()) =~= pat@);
    true
}

/// Position of the leftmost occurrence of `pat` in `s`.
pub fn find(s: &[char], pat: &[char]) -> (r: Option<usize>)
    ensures
        match find_first(s@, pat@) {
            Some(i) => r == Some(i as usize),
            None => r is None,
        },
        r matches Some(i) ==> i + pat@.len() <= s@.len(),
{
    proof {
        lemma_find_first_bounds(s@, pat@);
    }
    let mut i: usize = 0;
    assert(s@.skip(0) =~= s@);
    if pat.len() == 0 {
        return Some(0);
    }
    while i < s.len() && pat.len() <= s.len() - i
        invariant
            pat@.len() > 0,
            i <= s@.len(),
            find_first(s@, pat@) == match find_first(s@.skip(i as int), pat@) {
                Some(j) => Some(j + i),
                None => None::<int>,
            },
        decreases s@.len() - i,
    {
        assert(s@.skip(i as int).take(pat@.len() as int) =~= s@.subrange(i as int, i + pat@.len()));
        if occurs_at_exec(s, pat, i) {
            return Some(i);
        }
        assert(s@.skip(i as int).skip(1) =~= s@.skip(i + 1));
        i = i + 1;
    }
    None
}

/// `s` holds `pat` somewhere.
pub fn contains_exec(s: &[char], pat: &[char]) -> (r: bool)
    ensures
        r == contains(s@, pat@),
{
    find(s, pat).is_some()
}

/// `s` begins with `pat`.
pub fn starts_with_exec(s: &[char], pat: &[char]) -> (r: bool)
    ensures
        r == starts_with(s@, pat@),
{
    let r = occurs_at_exec(s, pat, 0);
    assert(s@.subrange(0, pat@.len() as int) =~= s@.take(pat@.len() as int));
    r
}

/// The views of a sequence of character vectors.
pub open spec fn views(v: Seq<Vec<char>>) -> Seq<Seq<char>> {
    v.map_values(|x: Vec<char>| x@)
}

/// The characters `s[lo..hi]` in a vector of their own.
pub fn copy_range(s: &[char], lo: usize, hi: usize) -> (r: Vec<char>)
    requires
        lo <= hi <= s@.len(),
    ensures
        r@ == s@.subrange(lo as int, hi as int),
{
    slice_to_vec(slice_subrange(s, lo, hi))
}

/// The pieces of `s` between the occurrences of the non-empty `pat`.
pub fn split(s: &[char], pat: &[char]) -> (r: Vec<Vec<char>>)
    requires
        pat@.len() > 0,
    ensures
        views(r@) == split_seq(s@, pat@),
{
    let mut done: Vec<Vec<char>> = Vec::new();
    let mut start: usize = 0;
    let mut i: usize = 0;
    let ghost k = pat@.len() as int;
    assert(s@.skip(0) =~= s@);
    assert(s@.subrange(0, 0) =~= Seq::<char>::empty());
    proof {
        lemma_split_nonempty(s@, pat@);
    }
    assert(prepend(Seq::empty(), split_seq(s@, pat@)) =~= split_seq(s@, pat@));
    assert(views(done@) + split_seq(s@, pat@) =~= split_seq(s@, pat@));
    while i < s.len() && pat.len() <= s.len() - i
        invariant
            k == pat@.len() > 0,
            start <= i <= s@.len(),
            split_seq(s@, pat@) == views(done@) + prepend(
                s@.subrange(start as int, i as int),
                split_seq(s@.skip(i as int), pat@),
            ),
        decreases s@.len() - i,
    {
        let ghost rest = s@.skip(i as int);
        let ghost cur = s@.subrange(start as int, i as int);
        assert(rest.take(k) =~= s@.subrange(i as int, i + k));
        if occurs_at_exec(s, pat, i) {
            let piece = copy_range(s, start, i);
            assert(rest.skip(k) =~= s@.skip(i + k));
            let ghost x = split_seq(s@.skip(i + k), pat@);
            proof {
                lemma_split_nonempty(s@.skip(i + k), pat@);
            }
            assert(prepend(cur, seq![Seq::empty()] + x) =~= seq![cur] + x);
            assert(prepend(Seq::empty(), x) =~= x);
            assert(views(done@.push(piece)) =~= views(done@).push(cur));
            done.push(piece);
            i = i + pat.len();
            start = i;
            assert(s@.subrange(start as int, i as int) =~= Seq::<char>::empty());
        } else {
            assert(rest.skip(1) =~= s@.skip(i + 1));
            let ghost x = split_seq(s@.skip(i + 1), pat@);
            proof {
                lemma_split_nonempty(s@.skip(i + 1), pat@);
            }
            assert(rest[0] == s@[i as int]);
            assert(cur + (seq![rest[0]] + x[0]) =~= (cur + seq![rest[0]]) + x[0]);
            assert(prepend(cur, prepend(seq![rest[0]], x)) =~= prepend(cur + seq![rest[0]], x));
            assert(cur + seq![rest[0]] =~= s@.subrange(start as int, i + 1));
            i = i + 1;
        }
    }
    let ghost cur = s@.subrange(start as int, i as int);
    assert(split_seq(s@.skip(i as int), pat@) == seq![s@.skip(i as int)]);
    assert(cur + s@.skip(i as int) =~= s@.subrange(start as int, s@.len() as int));
    assert(prepend(cur, seq![s@.skip(i as int)]) =~= seq![s@.subrange(start as int, s@.len() as int)]);
    let piece = copy_range(s, start, s.len());
    assert(views(done@.push(piece)) =~= views(done@).push(piece@));
    done.push(piece);
    done
}


/// The ASCII lower-case form of `c`; other characters are unchanged.
pub open spec fn ascii_lower(c: char) -> char {
    if 'A' <= c <= 'Z' {
        ((c as u32) + 32) as char
    } else {
        c
    }
}

/// Every character of `s` is ASCII.
pub open spec fn all_ascii(s: Seq<char>) -> bool {
    forall|i: int| 0 <= i < s.len() ==> (s[i] as u32) < 128
}

/// `a` and `b` are equal up to ASCII case.
pub open spec fn eq_ignoring_ascii_case(a: Seq<char>, b: Seq<char>) -> bool {
    a.len() == b.len() && forall|i: int| 0 <= i < a.len() ==> ascii_lower(a[i]) == ascii_lower(b[i])
}

/// What `str::to_lowercase` returns for `s`.
pub uninterp spec fn lower_of(s: Seq<char>) -> Seq<char>;

/// An ASCII character that `char::is_whitespace` holds of: space, tab,
/// line feed, vertical tab, form feed, carriage return.
pub open spec fn ascii_space(c: char) -> bool {
    c == ' ' || ('\t' <= c <= '\r')
}

/// `s` without its leading white space.
pub open spec fn trim_start_ascii(s: Seq<char>) -> Seq<char>
    decreases s.len(),
{
    if s.len() > 0 && ascii_space(s[0]) {
        trim_start_ascii(s.skip(1))
    } else {
        s
    }
}

/// `s` without its trailing white space.
pub open spec fn trim_end_ascii(s: Seq<char>) -> Seq<char>
    decreases s.len(),
{
    if s.len() > 0 && ascii_space(s.last()) {
        trim_end_ascii(s.drop_last())
    } else {
        s
    }
}

/// What `str::trim` returns for `s`.
pub uninterp spec fn trim_of(s: Seq<char>) -> Seq<char>;

/// What `char::is_alphabetic` returns for `c`.
pub uninterp spec fn alphabetic(c: char) -> bool;

/// Relies on `str::to_lowercase`: Unicode lower-case mapping, which on ASCII
/// text maps `A`..`Z` to `a`..`z` and keeps every other character.
#[verifier::external_body]
pub(crate) fn lowercase(s: &str) -> (r: String)
    ensures
        r@ == lower_of(s@),
        all_ascii(s@) ==> r@ == s@.map_values(|c: char| ascii_lower(c)),
{
    s.to_lowercase()
}

/// Relies on `str::trim`: drops leading and trailing white space, which
/// among ASCII characters is space and `\t`, `\n`, `\x0B`, `\x0C`, `\r`.
#[verifier::external_body]
fn trim(s: &str) -> (r: &str)
    ensures
        r@ == trim_of(s@),
        all_ascii(s@) ==> r@ == trim_end_ascii(trim_start_ascii(s@)),
{
    s.trim()
}

/// Relies on `char::is_alphabetic`: the Unicode Alphabetic property, which
/// among ASCII characters holds of the letters alone.
#[verifier::external_body]
pub(crate) fn is_alphabetic(c: char) -> (r: bool)
    ensures
        r == alphabetic(c),
        (c as u32) < 128 ==> (r <==> ('a' <= c <= 'z' || 'A' <= c <= 'Z')),
{
    c.is_alphabetic()
}

/// Relies on `std::str::from_utf8`: succeeds exactly on well-formed UTF-8
/// and then holds the characters it encodes.
#[verifier::external_body]
pub(crate) fn decode_utf8_text(b: &[u8]) -> (r: Option<String>)
    ensures
        r is Some <==> valid_utf8(b@),
        r matches Some(s) ==> s@ == decode_utf8(b@),
{
    match std::str::from_utf8(b) {
        Ok(s) => Some(s.to_string()),
        Err(_) => None,
    }
}

/// What `str::trim` returns for `s`, written out for ASCII text.
pub open spec fn trimmed(s: Seq<char>) -> Seq<char> {
    if all_ascii(s) {
        trim_end_ascii(trim_start_ascii(s))
    } else {
        trim_of(s)
    }
}

/// `str::trim` applied to the characters `v`.
pub fn trimmed_chars(v: &[char]) -> (r: Vec<char>)
    ensures
        r@ == trim_of(v@),
        all_ascii(v@) ==> r@ == trim_end_ascii(trim_start_ascii(v@)),
        r@ == trimmed(v@),
{
    let s = string_of(v, 0, v.len());
    assert(v@.subrange(0, v@.len() as int) =~= v@);
    chars_of(trim(s.as_str()))
}

/// `str::to_lowercase` applied to the characters `v`.
pub fn lowercase_chars(v: &[char]) -> (r: String)
    ensures
        r@ == lower_of(v@),
        all_ascii(v@) ==> r@ == v@.map_values(|c: char| ascii_lower(c)),
{
    let s = string_of(v, 0, v.len());
    assert(v@.subrange(0, v@.len() as int) =~= v@);
    lowercase(s.as_str())
}

fn ascii_lower_exec(c: char) -> (r: char)
    ensures
        r == ascii_lower(c),
{
    if 'A' <= c && c <= 'Z' {
        ((c as u8) + 32) as char
    } else {
        c
    }
}

/// `a` and `b` are equal up to ASCII case.
pub fn eq_ignore_ascii_case(a: &[char], b: &[char]) -> (r: bool)
    ensures
        r == eq_ignoring_ascii_case(a@, b@),
{
    if a.len() != b.len() {
        return false;
    }
    let mut i: usize = 0;
    while i < a.len()
        invariant
            a@.len() == b@.len(),
            i <= a@.len(),
            forall|j: int| 0 <= j < i ==> ascii_lower(a@[j]) == ascii_lower(b@[j]),
        decreases a@.len() - i,
    {
        if ascii_lower_exec(a[i]) != ascii_lower_exec(b[i]) {
            return false;
        }
        i = i + 1;
    }
    true
}

/// `a` and `b` hold the same characters.
pub fn chars_eq(a: &[char], b: &[char]) -> (r: bool)
    ensures
        r == (a@ == b@),
{
    if a.len() != b.len() {
        return false;
    }
    let mut i: usize = 0;
    while i < a.len()
        invariant
            a@.len() == b@.len(),
            i <= a@.len(),
            forall|j: int| 0 <= j < i ==> a@[j] == b@[j],
        decreases a@.len() - i,
    {
        if a[i] != b[i] {
            return false;
        }
        i = i + 1;
    }
    assert(a@ =~= b@);
    true
}


/// The decimal digit character for `d < 10`.
pub open spec fn digit_char(d: nat) -> char {
    ((48 + d) as u32) as char
}

/// The decimal digits of `n`, most significant first, without leading zeros.
pub open spec fn digits_of(n: nat) -> Seq<char>
    decreases n,
{
    if n < 10 {
        seq![digit_char(n)]
    } else {
        digits_of(n / 10).push(digit_char(n % 10))
    }
}

/// The decimal text of `i`, with a leading `-` when it is negative.
pub open spec fn int_text(i: int) -> Seq<char> {
    if i < 0 {
        seq!['-'] + digits_of((-i) as nat)
    } else {
        digits_of(i as nat)
    }
}

/// The decimal digits of `n`.
pub fn decimal(n: u64) -> (r: String)
    ensures
        r@ == digits_of(n as nat),
{
    let mut q: u64 = n;
    let mut acc: Vec<char> = Vec::new();
    while q >= 10
        invariant
            digits_of(n as nat) == digits_of(q as nat) + acc@,
        decreases q,
    {
        let d = q % 10;
        let c = ((d as u8) + 48) as char;
        assert(c == digit_char(d as nat));
        let ghost old_acc = acc@;
        acc.insert(0, c);
        assert(digits_of(q as nat) == digits_of((q / 10) as nat).push(c));
        assert(digits_of(q as nat) + old_acc =~= digits_of((q / 10) as nat) + acc@);
        q = q / 10;
    }
    let c = ((q as u8) + 48) as char;
    assert(c == digit_char(q as nat));
    acc.insert(0, c);
    assert(digits_of(n as nat) =~= acc@);
    string_of(acc.as_slice(), 0, acc.len())
}

/// The decimal text of `i`.
pub fn int_decimal(i: i32) -> (r: String)
    ensures
        r@ == int_text(i as int),
{
    if i < 0 {
        let m: u64 = (0 - (i as i64)) as u64;
        let digits = decimal(m);
        let mut r = String::from_str("-");
        proof {
            reveal_strlit("-");
        }
        r.append(digits.as_str());
        assert(r@ =~= seq!['-'] + digits_of((-(i as int)) as nat));
        r
    } else {
        decimal(i as u64)
    }
}

} // verus!
