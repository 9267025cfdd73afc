//! Text predicates over the characters of a string.
//!
//! Every function here reads a string as its sequence of characters and is
//! proved against a short mathematical statement over that sequence.

use vstd::prelude::*;

verus! {

/// Whether `c` counts as whitespace when a leaf is trimmed: the value of
/// `char::is_whitespace`, the Unicode `White_Space` property.
pub uninterp spec fn is_white_space(c: char) -> bool;

/// For each character of `s`, whether it is whitespace.
pub open spec fn blanks(s: Seq<char>) -> Seq<bool> {
    Seq::new(s.len(), |i: int| is_white_space(s[i]))
}

/// The first index at or after `from` that is not blank; the length of
/// `blank` if there is none.
pub open spec fn solid_start(blank: Seq<bool>, from: int) -> int
    decreases blank.len() - from,
{
    if 0 <= from < blank.len() && blank[from] {
        solid_start(blank, from + 1)
    } else {
        from
    }
}

/// `end` moved back over the blanks that stand just before it, but not
/// before `start`.
pub open spec fn solid_end(blank: Seq<bool>, start: int, end: int) -> int
    decreases end,
{
    if 0 <= start < end <= blank.len() && blank[end - 1] {
        solid_end(blank, start, end - 1)
    } else {
        end
    }
}

/// `s` without surrounding whitespace: what lies between its first and its
/// last character that is no whitespace; nothing, if all of `s` is
/// whitespace.
pub open spec fn trimmed(s: Seq<char>) -> Seq<char> {
    let start = solid_start(blanks(s), 0);
    s.subrange(start, solid_end(blanks(s), start, s.len() as int))
}

/// `pat` stands in `s` at index `at`.
pub open spec fn occurs_at(s: Seq<char>, pat: Seq<char>, at: int) -> bool {
    &&& 0 <= at
    &&& at + pat.len() <= s.len()
    &&& s.subrange(at, at + pat.len()) == pat
}

/// `pat` stands somewhere in `s`.
pub open spec fn has_substring(s: Seq<char>, pat: Seq<char>) -> bool {
    exists|at: int| occurs_at(s, pat, at)
}

/// `s` begins with `pat`.
pub open spec fn has_prefix(s: Seq<char>, pat: Seq<char>) -> bool {
    occurs_at(s, pat, 0)
}

/// `s` ends with `pat`.
pub open spec fn has_suffix(s: Seq<char>, pat: Seq<char>) -> bool {
    occurs_at(s, pat, s.len() - pat.len())
}

/// How often `c` occurs in `s`.
pub open spec fn count_of(s: Seq<char>, c: char) -> nat
    decreases s.len(),
{
    if s.len() == 0 {
        0
    } else {
        count_of(s.drop_last(), c) + if s.last() == c {
            1nat
        } else {
            0nat
        }
    }
}

/// The five characters that separate the tokens of a term header: space, tab,
/// line feed, form feed and carriage return.
pub open spec fn is_ascii_space(c: char) -> bool {
    c == ' ' || c == '\t' || c == '\n' || c == '\x0C' || c == '\r'
}

/// The first index at or after `from` whose character is a separator
/// (`spaces` false) or is none (`spaces` true); the length of `s` if there is
/// no such index.
pub open spec fn run_end(s: Seq<char>, from: int, spaces: bool) -> int
    decreases s.len() - from,
{
    if 0 <= from < s.len() && is_ascii_space(s[from]) == spaces {
        run_end(s, from + 1, spaces)
    } else {
        from
    }
}

/// `char::is_whitespace`: the result is the `White_Space` property of `c`,
/// named [`is_white_space`].
#[verifier::external_body]
fn char_is_whitespace(c: char) -> (b: bool)
    ensures
        b == is_white_space(c),
{
    c.is_whitespace()
}

/// The characters of `s`, in order.
pub fn chars_of(s: &str) -> (v: Vec<char>)
    ensures
        v@ == s@,
{
    let mut v: Vec<char> = Vec::new();
    for c in it: s.chars()
        invariant
            v@ == it.seq().take(it.index() as int),
            it.seq() == s@,
    {
        v.push(c);
    }
    v
}

/// Whether `pat` stands in `s` at index `at`.
fn matches_at(s: &Vec<char>, pat: &Vec<char>, at: usize) -> (b: bool)
    ensures
        b == occurs_at(s@, pat@, at as int),
{
    if pat.len() > s.len() || at > s.len() - pat.len() {
        return false;
    }
    let mut k: usize = 0;
    while k < pat.len()
        invariant
            k <= pat.len(),
            at + pat.len() <= s.len(),
            forall|j: int| 0 <= j < k ==> s@[at + j] == pat@[j],
        decreases pat.len() - k,
    {
        if s[at + k] != pat[k] {
            proof {
                assert(s@.subrange(at as int, at + pat.len())[k as int] == s@[at + k]);
            }
            return false;
        }
        k += 1;
    }
    proof {
        assert(s@.subrange(at as int, at + pat.len()) =~= pat@);
    }
    true
}

/// Whether two strings hold the same characters.
pub fn text_eq(a: &str, b: &str) -> (r: bool)
    ensures
        r == (a@ == b@),
{
    let x = chars_of(a);
    let y = chars_of(b);
    if x.len() != y.len() {
        return false;
    }
    let r = matches_at(&x, &y, 0);
    proof {
        assert(x@.subrange(0, x@.len() as int) =~= x@);
    }
    r
}

/// Whether `s` contains `pat`.
pub fn contains_text(s: &str, pat: &str) -> (r: bool)
    ensures
        r == has_substring(s@, pat@),
{
    let hay = chars_of(s);
    let needle = chars_of(pat);
    if needle.len() > hay.len() {
        return false;
    }
    let last: usize = hay.len() - needle.len();
    let mut at: usize = 0;
    while at < last
        invariant
            hay@ == s@,
            needle@ == pat@,
            last == hay.len() - needle.len(),
            at <= last,
            forall|j: int| 0 <= j < at ==> !occurs_at(s@, pat@, j),
        decreases last - at,
    {
        if matches_at(&hay, &needle, at) {
            return true;
        }
        at += 1;
    }
    matches_at(&hay, &needle, last)
}

/// Whether `s` begins with `pat`.
pub fn starts_with_text(s: &str, pat: &str) -> (r: bool)
    ensures
        r == has_prefix(s@, pat@),
{
    let hay = chars_of(s);
    let needle = chars_of(pat);
    matches_at(&hay, &needle, 0)
}

/// Whether `s` ends with `pat`.
pub fn ends_with_text(s: &str, pat: &str) -> (r: bool)
    ensures
        r == has_suffix(s@, pat@),
{
    let hay = chars_of(s);
    let needle = chars_of(pat);
    if needle.len() > hay.len() {
        return false;
    }
    matches_at(&hay, &needle, hay.len() - needle.len())
}

/// How often `c` occurs in `s`.
pub fn count_char(s: &str, c: char) -> (n: usize)
    ensures
        n == count_of(s@, c),
{
    let v = chars_of(s);
    let mut n: usize = 0;
    let mut i: usize = 0;
    while i < v.len()
        invariant
            i <= v.len(),
            n <= i,
            n == count_of(v@.take(i as int), c),
        decreases v.len() - i,
    {
        proof {
            assert(v@.take(i + 1).drop_last() =~= v@.take(i as int));
        }
        if v[i] == c {
            n += 1;
        }
        i += 1;
    }
    proof {
        assert(v@.take(v.len() as int) =~= v@);
    }
    n
}

/// Where the part between leading and trailing blanks begins and ends,
/// given for each position whether it is blank.
pub fn solid_span(blank: &Vec<bool>) -> (r: (usize, usize))
    ensures
        r.0 == solid_start(blank@, 0),
        r.1 == solid_end(blank@, r.0 as int, blank@.len() as int),
        r.0 <= r.1 <= blank.len(),
{
    let mut start: usize = 0;
    while start < blank.len() && blank[start]
        invariant
            start <= blank.len(),
            solid_start(blank@, 0) == solid_start(blank@, start as int),
        decreases blank.len() - start,
    {
        start += 1;
    }
    let mut end: usize = blank.len();
    while end > start && blank[end - 1]
        invariant
            start <= end <= blank.len(),
            solid_end(blank@, start as int, blank@.len() as int) == solid_end(
                blank@,
                start as int,
                end as int,
            ),
        decreases end,
    {
        end -= 1;
    }
    (start, end)
}

/// `s` without surrounding whitespace.
pub fn trim(s: &str) -> (r: &str)
    ensures
        r@ == trimmed(s@),
{
    let v = chars_of(s);
    let mut blank: Vec<bool> = Vec::new();
    let mut i: usize = 0;
    while i < v.len()
        invariant
            i <= v.len(),
            v@ == s@,
            blank@ == blanks(s@).take(i as int),
        decreases v.len() - i,
    {
        blank.push(char_is_whitespace(v[i]));
        proof {
            assert(blank@ =~= blanks(s@).take(i + 1));
        }
        i += 1;
    }
    proof {
        assert(blank@ =~= blanks(s@));
    }
    let (start, end) = solid_span(&blank);
    s.substring_char(start, end)
}

/// The end of the run of separators (`spaces` true) or of other characters
/// (`spaces` false) that starts at `from`.
pub fn scan_run(v: &Vec<char>, from: usize, spaces: bool) -> (end: usize)
    ensures
        end == run_end(v@, from as int, spaces),
        from <= end,
        from <= v.len() ==> end <= v.len(),
{
    let mut end: usize = from;
    while end < v.len() && is_space(v[end]) == spaces
        invariant
            from <= end,
            from <= v.len() ==> end <= v.len(),
            run_end(v@, from as int, spaces) == run_end(v@, end as int, spaces),
        decreases v.len() - end,
    {
        end += 1;
    }
    end
}

/// Whether `c` separates the tokens of a term header.
pub fn is_space(c: char) -> (b: bool)
    ensures
        b == is_ascii_space(c),
{
    c == ' ' || c == '\t' || c == '\n' || c == '\x0C' || c == '\r'
}

/// Where the solid part lies: it begins and ends inside the list, and
/// neither its first nor its last position is blank.
pub proof fn lemma_solid_span(blank: Seq<bool>)
    ensures
        ({
            let start = solid_start(blank, 0);
            let end = solid_end(blank, start, blank.len() as int);
            &&& 0 <= start <= end <= blank.len()
            &&& start < end ==> !blank[start] && !blank[end - 1]
        }),
{
    lemma_solid_start(blank, 0);
    lemma_solid_end(blank, solid_start(blank, 0), blank.len() as int);
}

/// `solid_start` stays within the list and stops at a position that is not
/// blank.
pub proof fn lemma_solid_start(blank: Seq<bool>, from: int)
    requires
        0 <= from <= blank.len(),
    ensures
        from <= solid_start(blank, from) <= blank.len(),
        solid_start(blank, from) < blank.len() ==> !blank[solid_start(blank, from)],
    decreases blank.len() - from,
{
    if from < blank.len() && blank[from] {
        lemma_solid_start(blank, from + 1);
    }
}

/// `solid_end` stays between `start` and `end` and stops after a position
/// that is not blank.
pub proof fn lemma_solid_end(blank: Seq<bool>, start: int, end: int)
    requires
        0 <= start <= end <= blank.len(),
    ensures
        start <= solid_end(blank, start, end) <= end,
        start < solid_end(blank, start, end) ==> !blank[solid_end(blank, start, end) - 1],
    decreases end,
{
    if start < end && blank[end - 1] {
        lemma_solid_end(blank, start, end - 1);
    }
}

/// Trimming twice is trimming once.
pub proof fn lemma_trimmed_idempotent(s: Seq<char>)
    ensures
        trimmed(trimmed(s)) == trimmed(s),
{
    let t = trimmed(s);
    lemma_solid_span(blanks(s));
    lemma_solid_span(blanks(t));
    let start = solid_start(blanks(s), 0);
    let end = solid_end(blanks(s), start, s.len() as int);
    if start < end {
        assert(blanks(t)[0] == blanks(s)[start]);
        assert(blanks(t)[t.len() - 1] == blanks(s)[end - 1]);
        assert(solid_start(blanks(t), 0) == 0);
        assert(solid_end(blanks(t), 0, t.len() as int) == t.len());
        assert(t.subrange(0, t.len() as int) =~= t);
    } else {
        assert(trimmed(t) =~= t);
    }
}

} // verus!
