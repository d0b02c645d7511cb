//! Reading and rewriting text, character by character.
//!
//! Every function here has a twin among the spec functions over `Seq<char>`; the rest of the
//! library states its contracts with those.

use vstd::prelude::*;
use vstd::utf8::{char_is_scalar, encode_scalar, encode_utf8};

verus! {

broadcast use vstd::string::group_string_axioms;

/// `String::push` adds one character at the end.
pub assume_specification[ String::push ](s: &mut String, c: char)
    ensures
        final(s)@ == old(s)@.push(c),
;

// ---------------------------------------------------------------------------
// Character classes
// ---------------------------------------------------------------------------

/// A class of characters to trim or split at.
#[derive(Clone, Copy)]
pub enum CharSet {
    /// Unicode white space.
    Whitespace,
    /// `/` and `\`.
    Slashes,
    /// `/`, `_` and `-`.
    DateMarks,
    /// The bytes of an id: ASCII hex digits and `-`.
    IdChars,
    /// Exactly one character.
    One(char),
}

/// The characters with the Unicode property `White_Space`.
pub open spec fn is_space(c: char) -> bool {
    ||| '\u{9}' <= c <= '\u{d}'
    ||| c == ' '
    ||| c == '\u{85}'
    ||| c == '\u{a0}'
    ||| c == '\u{1680}'
    ||| '\u{2000}' <= c <= '\u{200a}'
    ||| c == '\u{2028}'
    ||| c == '\u{2029}'
    ||| c == '\u{202f}'
    ||| c == '\u{205f}'
    ||| c == '\u{3000}'
}

pub open spec fn is_hex(c: char) -> bool {
    '0' <= c <= '9' || 'a' <= c <= 'f' || 'A' <= c <= 'F'
}

impl CharSet {
    pub open spec fn has(self, c: char) -> bool {
        match self {
            CharSet::Whitespace => is_space(c),
            CharSet::Slashes => c == '/' || c == '\\',
            CharSet::DateMarks => c == '/' || c == '_' || c == '-',
            CharSet::IdChars => is_hex(c) || c == '-',
            CharSet::One(x) => c == x,
        }
    }

    /// Whether `c` belongs to the class.
    pub fn holds(self, c: char) -> (r: bool)
        ensures
            r == self.has(c),
    {
        match self {
            CharSet::Whitespace => ('\u{9}' <= c && c <= '\u{d}') || c == ' ' || c == '\u{85}' || c
                == '\u{a0}' || c == '\u{1680}' || ('\u{2000}' <= c && c <= '\u{200a}') || c
                == '\u{2028}' || c == '\u{2029}' || c == '\u{202f}' || c == '\u{205f}' || c
                == '\u{3000}',
            CharSet::Slashes => c == '/' || c == '\\',
            CharSet::DateMarks => c == '/' || c == '_' || c == '-',
            CharSet::IdChars => ('0' <= c && c <= '9') || ('a' <= c && c <= 'f') || ('A' <= c && c
                <= 'F') || c == '-',
            CharSet::One(x) => c == x,
        }
    }
}

// ---------------------------------------------------------------------------
// Between strings and characters
// ---------------------------------------------------------------------------

/// The characters of `s`, in order.
pub fn chars_of(s: &str) -> (r: Vec<char>)
    ensures
        r@ == s@,
{
    let mut out: Vec<char> = Vec::new();
    for c in it: s.chars()
        invariant
            it.seq() == s@,
            out@ == it.seq().take(it.index() as int),
    {
        out.push(c);
    }
    assert(s@.take(s@.len() as int) == s@);
    out
}

/// The string made of the characters from `lo` up to `hi`.
pub fn string_of(chars: &Vec<char>, lo: usize, hi: usize) -> (r: String)
    requires
        lo <= hi <= chars@.len(),
    ensures
        r@ == chars@.subrange(lo as int, hi as int),
{
    let mut out = String::new();
    let mut i: usize = lo;
    while i < hi
        invariant
            lo <= i <= hi <= chars@.len(),
            out@ == chars@.subrange(lo as int, i as int),
        decreases hi - i,
    {
        out.push(chars[i]);
        i += 1;
    }
    out
}

/// The contents of a list of strings.
pub open spec fn views(list: Seq<String>) -> Seq<Seq<char>> {
    Seq::new(list.len(), |i: int| list[i]@)
}

/// The contents of an optional string.
pub open spec fn view_opt(s: Option<String>) -> Option<Seq<char>> {
    match s {
        Some(s) => Some(s@),
        None => None,
    }
}

/// The contents of an optional borrowed string.
pub open spec fn view_ref(s: Option<&str>) -> Option<Seq<char>> {
    match s {
        Some(s) => Some(s@),
        None => None,
    }
}

/// Whether two strings hold the same characters.
pub fn same_text(a: &str, b: &str) -> (r: bool)
    ensures
        r == (a@ == b@),
{
    a.to_string() == b.to_string()
}

/// Whether two optional strings agree.
pub fn same_opt(a: &Option<String>, b: &Option<String>) -> (r: bool)
    ensures
        r == (view_opt(*a) == view_opt(*b)),
{
    match (a, b) {
        (Some(x), Some(y)) => same_text(x.as_str(), y.as_str()),
        (None, None) => true,
        _ => false,
    }
}

/// A copy of an optional string.
pub fn copy_opt(s: &Option<String>) -> (r: Option<String>)
    ensures
        view_opt(r) == view_opt(*s),
{
    match s {
        Some(x) => Some(x.clone()),
        None => None,
    }
}

/// `a` followed by `b`.
pub fn concat2(a: &str, b: &str) -> (r: String)
    ensures
        r@ == a@ + b@,
{
    let mut out = a.to_string();
    out.append(b);
    out
}

/// `a`, `b` and `c` in a row.
pub fn concat3(a: &str, b: &str, c: &str) -> (r: String)
    ensures
        r@ == a@ + b@ + c@,
{
    let mut out = a.to_string();
    out.append(b);
    out.append(c);
    out
}

// ---------------------------------------------------------------------------
// Trimming
// ---------------------------------------------------------------------------

/// What is left of `s` once every leading character of the class is gone.
pub open spec fn skip_leading(s: Seq<char>, set: CharSet) -> Seq<char>
    decreases s.len(),
{
    if s.len() > 0 && set.has(s[0]) {
        skip_leading(s.drop_first(), set)
    } else {
        s
    }
}

/// What is left of `s` once every trailing character of the class is gone.
pub open spec fn drop_trailing(s: Seq<char>, set: CharSet) -> Seq<char>
    decreases s.len(),
{
    if s.len() > 0 && set.has(s.last()) {
        drop_trailing(s.drop_last(), set)
    } else {
        s
    }
}

/// `s` without the white space around it.
pub open spec fn trimmed(s: Seq<char>) -> Seq<char> {
    drop_trailing(skip_leading(s, CharSet::Whitespace), CharSet::Whitespace)
}

/// Nothing is left at the ends of a trimmed text that could be trimmed.
pub proof fn lemma_trimmed(s: Seq<char>)
    ensures
        trimmed(s).len() > 0 ==> !is_space(trimmed(s)[0]) && !is_space(trimmed(s).last()),
{
    lemma_skip_leading(s, CharSet::Whitespace);
    lemma_drop_trailing(skip_leading(s, CharSet::Whitespace), CharSet::Whitespace);
}

proof fn lemma_skip_leading(s: Seq<char>, set: CharSet)
    ensures
        skip_leading(s, set).len() > 0 ==> !set.has(skip_leading(s, set)[0]),
    decreases s.len(),
{
    if s.len() > 0 && set.has(s[0]) {
        lemma_skip_leading(s.drop_first(), set);
    }
}

proof fn lemma_drop_trailing(s: Seq<char>, set: CharSet)
    ensures
        drop_trailing(s, set).len() > 0 ==> {
            &&& !set.has(drop_trailing(s, set).last())
            &&& drop_trailing(s, set)[0] == s[0]
        },
        drop_trailing(s, set).len() <= s.len(),
    decreases s.len(),
{
    if s.len() > 0 && set.has(s.last()) {
        lemma_drop_trailing(s.drop_last(), set);
    }
}

/// A text with no white space at its ends is trimmed already.
pub proof fn lemma_trimmed_already(t: Seq<char>)
    requires
        t.len() > 0 ==> !is_space(t[0]) && !is_space(t.last()),
    ensures
        trimmed(t) == t,
{
}

fn leading_end(chars: &Vec<char>, lo: usize, hi: usize, set: CharSet) -> (r: usize)
    requires
        lo <= hi <= chars@.len(),
    ensures
        lo <= r <= hi,
        skip_leading(chars@.subrange(lo as int, hi as int), set) == chars@.subrange(
            r as int,
            hi as int,
        ),
{
    let mut i: usize = lo;
    while i < hi && set.holds(chars[i])
        invariant
            lo <= i <= hi <= chars@.len(),
            skip_leading(chars@.subrange(lo as int, hi as int), set) == skip_leading(
                chars@.subrange(i as int, hi as int),
                set,
            ),
        decreases hi - i,
    {
        assert(chars@.subrange(i as int, hi as int).drop_first() =~= chars@.subrange(
            i + 1,
            hi as int,
        ));
        i += 1;
    }
    i
}

fn trailing_start(chars: &Vec<char>, lo: usize, hi: usize, set: CharSet) -> (r: usize)
    requires
        lo <= hi <= chars@.len(),
    ensures
        lo <= r <= hi,
        drop_trailing(chars@.subrange(lo as int, hi as int), set) == chars@.subrange(
            lo as int,
            r as int,
        ),
{
    let mut i: usize = hi;
    while i > lo && set.holds(chars[i - 1])
        invariant
            lo <= i <= hi <= chars@.len(),
            drop_trailing(chars@.subrange(lo as int, hi as int), set) == drop_trailing(
                chars@.subrange(lo as int, i as int),
                set,
            ),
        decreases i,
    {
        assert(chars@.subrange(lo as int, i as int).drop_last() =~= chars@.subrange(
            lo as int,
            i - 1,
        ));
        i -= 1;
    }
    i
}

/// `s` without its leading characters of the class.
pub fn trim_start_of(s: &str, set: CharSet) -> (r: String)
    ensures
        r@ == skip_leading(s@, set),
{
    let chars = chars_of(s);
    let n = chars.len();
    let lo = leading_end(&chars, 0, n, set);
    assert(chars@.subrange(0, n as int) =~= s@);
    string_of(&chars, lo, n)
}

/// `s` without its trailing characters of the class.
pub fn trim_end_of(s: &str, set: CharSet) -> (r: String)
    ensures
        r@ == drop_trailing(s@, set),
{
    let chars = chars_of(s);
    let n = chars.len();
    let hi = trailing_start(&chars, 0, n, set);
    assert(chars@.subrange(0, n as int) =~= s@);
    string_of(&chars, 0, hi)
}

/// `s` without the white space around it.
pub fn trim(s: &str) -> (r: String)
    ensures
        r@ == trimmed(s@),
{
    let chars = chars_of(s);
    let n = chars.len();
    let lo = leading_end(&chars, 0, n, CharSet::Whitespace);
    let hi = trailing_start(&chars, lo, n, CharSet::Whitespace);
    assert(chars@.subrange(0, n as int) =~= s@);
    string_of(&chars, lo, hi)
}

// ---------------------------------------------------------------------------
// Searching
// ---------------------------------------------------------------------------

/// `needle` stands in `hay` at position `i`.
pub open spec fn occurs_at(hay: Seq<char>, needle: Seq<char>, i: int) -> bool {
    0 <= i && i + needle.len() <= hay.len() && hay.subrange(i, i + needle.len()) == needle
}

/// The first place at or after `i` where `needle` stands in `hay`.
pub open spec fn index_from(hay: Seq<char>, needle: Seq<char>, i: int) -> Option<int>
    decreases hay.len() + 1 - i,
{
    if i < 0 || i + needle.len() > hay.len() {
        None
    } else if occurs_at(hay, needle, i) {
        Some(i)
    } else {
        index_from(hay, needle, i + 1)
    }
}

/// The first place where `needle` stands in `hay`.
pub open spec fn index_of(hay: Seq<char>, needle: Seq<char>) -> Option<int> {
    index_from(hay, needle, 0)
}

/// `needle` stands somewhere in `hay`.
pub open spec fn contains_text(hay: Seq<char>, needle: Seq<char>) -> bool {
    index_of(hay, needle) is Some
}

/// The last place of `c` in `s`.
pub open spec fn last_index(s: Seq<char>, c: char) -> Option<int>
    decreases s.len(),
{
    if s.len() == 0 {
        None
    } else if s.last() == c {
        Some(s.len() - 1)
    } else {
        last_index(s.drop_last(), c)
    }
}

/// `index_from` finds the leftmost place, and finds one wherever there is one.
pub proof fn lemma_index_from(hay: Seq<char>, needle: Seq<char>, i: int)
    requires
        0 <= i,
    ensures
        index_from(hay, needle, i) matches Some(k) ==> i <= k && occurs_at(hay, needle, k) && (
        forall|j: int| i <= j < k ==> !occurs_at(hay, needle, j)),
        index_from(hay, needle, i) is None ==> (forall|j: int|
            i <= j ==> !occurs_at(hay, needle, j)),
    decreases hay.len() + 1 - i,
{
    if i + needle.len() <= hay.len() && !occurs_at(hay, needle, i) {
        lemma_index_from(hay, needle, i + 1);
    }
}

pub(crate) fn matches_at(hay: &Vec<char>, needle: &Vec<char>, at: usize) -> (r: bool)
    ensures
        r == occurs_at(hay@, needle@, at as int),
{
    if at > hay.len() || needle.len() > hay.len() - at {
        return false;
    }
    let total: usize = hay.len();
    let mut k: usize = 0;
    while k < needle.len()
        invariant
            k <= needle@.len(),
            total == hay@.len(),
            at + needle@.len() <= hay@.len(),
            forall|j: int| 0 <= j < k ==> hay@[at + j] == needle@[j],
        decreases needle@.len() - k,
    {
        if hay[at + k] != needle[k] {
            assert(hay@.subrange(at as int, at + needle@.len())[k as int] != needle@[k as int]);
            return false;
        }
        k += 1;
    }
    assert(hay@.subrange(at as int, at + needle@.len()) =~= needle@);
    true
}

pub(crate) fn find_in(hay: &Vec<char>, needle: &Vec<char>, from: usize) -> (r: Option<usize>)
    ensures
        r matches Some(i) ==> index_from(hay@, needle@, from as int) == Some(i as int),
        r is None ==> index_from(hay@, needle@, from as int) is None,
{
    if from > hay.len() || needle.len() > hay.len() - from {
        return None;
    }
    let stop: usize = hay.len() - needle.len();
    let mut i: usize = from;
    while i <= stop
        invariant
            stop == hay@.len() - needle@.len(),
            from <= i <= stop + 1,
            index_from(hay@, needle@, from as int) == index_from(hay@, needle@, i as int),
        decreases stop + 1 - i,
    {
        if matches_at(hay, needle, i) {
            return Some(i);
        }
        if i == stop {
            assert(index_from(hay@, needle@, i + 1) is None);
            return None;
        }
        i += 1;
    }
    None
}

/// The first place, counted in characters, where `needle` stands in `hay`.
pub fn find_text(hay: &str, needle: &str) -> (r: Option<usize>)
    ensures
        r matches Some(i) ==> index_of(hay@, needle@) == Some(i as int),
        r is None ==> index_of(hay@, needle@) is None,
{
    find_in(&chars_of(hay), &chars_of(needle), 0)
}

pub(crate) fn last_place(chars: &Vec<char>, c: char) -> (r: Option<usize>)
    ensures
        r matches Some(i) ==> last_index(chars@, c) == Some(i as int) && i < chars@.len(),
        r is None ==> last_index(chars@, c) is None,
{
    let mut i: usize = chars.len();
    assert(chars@.take(i as int) =~= chars@);
    while i > 0
        invariant
            i <= chars@.len(),
            last_index(chars@, c) == last_index(chars@.take(i as int), c),
        decreases i,
    {
        if chars[i - 1] == c {
            return Some(i - 1);
        }
        assert(chars@.take(i as int).drop_last() =~= chars@.take(i - 1));
        i -= 1;
    }
    None
}

/// `s` begins with `prefix`.
pub open spec fn begins_with(s: Seq<char>, prefix: Seq<char>) -> bool {
    occurs_at(s, prefix, 0)
}

/// Whether `s` begins with `prefix`.
pub fn starts_with_text(s: &str, prefix: &str) -> (r: bool)
    ensures
        r == begins_with(s@, prefix@),
{
    matches_at(&chars_of(s), &chars_of(prefix), 0)
}

// ---------------------------------------------------------------------------
// Splitting
// ---------------------------------------------------------------------------

/// The place of the first character of the class, or the length of `s`.
pub open spec fn first_in(s: Seq<char>, set: CharSet) -> nat
    decreases s.len(),
{
    if s.len() == 0 || set.has(s[0]) {
        0
    } else {
        1 + first_in(s.drop_first(), set)
    }
}

/// `s` cut at every character of the class. There is always at least one piece.
pub open spec fn pieces(s: Seq<char>, set: CharSet) -> Seq<Seq<char>>
    decreases s.len(),
{
    let n = first_in(s, set);
    if n >= s.len() {
        seq![s]
    } else {
        seq![s.take(n as int)] + pieces(s.skip(n as int + 1), set)
    }
}

/// The pieces that hold at least one character.
pub open spec fn nonempty_pieces(list: Seq<Seq<char>>) -> Seq<Seq<char>>
    decreases list.len(),
{
    if list.len() == 0 {
        Seq::empty()
    } else if list[0].len() == 0 {
        nonempty_pieces(list.drop_first())
    } else {
        seq![list[0]] + nonempty_pieces(list.drop_first())
    }
}

/// The words of `s`: what stands between its runs of white space.
pub open spec fn words(s: Seq<char>) -> Seq<Seq<char>> {
    nonempty_pieces(pieces(s, CharSet::Whitespace))
}

pub proof fn lemma_first_in(s: Seq<char>, set: CharSet, n: int)
    requires
        0 <= n <= s.len(),
        forall|k: int| 0 <= k < n ==> !set.has(#[trigger] s[k]),
        n == s.len() || set.has(s[n]),
    ensures
        first_in(s, set) == n,
    decreases s.len(),
{
    if n > 0 {
        assert(!set.has(s[0]));
        assert forall|k: int| 0 <= k < n - 1 implies !set.has(#[trigger] s.drop_first()[k]) by {
            assert(!set.has(s[k + 1]));
        }
        lemma_first_in(s.drop_first(), set, n - 1);
    }
}

pub proof fn lemma_first_in_bounds(s: Seq<char>, set: CharSet)
    ensures
        first_in(s, set) <= s.len(),
        forall|k: int| 0 <= k < first_in(s, set) ==> !set.has(#[trigger] s[k]),
        first_in(s, set) < s.len() ==> set.has(s[first_in(s, set) as int]),
    decreases s.len(),
{
    if s.len() > 0 && !set.has(s[0]) {
        lemma_first_in_bounds(s.drop_first(), set);
        assert forall|k: int| 0 <= k < first_in(s, set) implies !set.has(#[trigger] s[k]) by {
            if k > 0 {
                assert(s[k] == s.drop_first()[k - 1]);
            }
        }
        if first_in(s, set) < s.len() {
            let n = first_in(s.drop_first(), set) as int;
            assert(s[n + 1] == s.drop_first()[n]);
        }
    }
}

pub(crate) fn first_place(chars: &Vec<char>, lo: usize, set: CharSet) -> (r: usize)
    requires
        lo <= chars@.len(),
    ensures
        lo <= r <= chars@.len(),
        r - lo == first_in(chars@.skip(lo as int), set),
        forall|k: int| lo <= k < r ==> !set.has(#[trigger] chars@[k]),
        r < chars@.len() ==> set.has(chars@[r as int]),
{
    let mut i: usize = lo;
    while i < chars.len() && !set.holds(chars[i])
        invariant
            lo <= i <= chars@.len(),
            forall|k: int| lo <= k < i ==> !set.has(#[trigger] chars@[k]),
        decreases chars@.len() - i,
    {
        i += 1;
    }
    proof {
        let rest = chars@.skip(lo as int);
        assert forall|k: int| 0 <= k < i - lo implies !set.has(#[trigger] rest[k]) by {
            assert(!set.has(chars@[lo + k]));
        }
        lemma_first_in(rest, set, i - lo);
    }
    i
}

/// `s` cut at every character of the class.
pub fn split_at_set(s: &str, set: CharSet) -> (r: Vec<String>)
    ensures
        views(r@) == pieces(s@, set),
{
    let chars = chars_of(s);
    let mut out: Vec<String> = Vec::new();
    let mut start: usize = 0;
    proof {
        assert(chars@.skip(0) =~= chars@);
        assert(views(out@) + pieces(chars@.skip(0), set) =~= pieces(s@, set));
    }
    loop
        invariant
            chars@ == s@,
            start <= chars@.len(),
            views(out@) + pieces(chars@.skip(start as int), set) == pieces(s@, set),
        decreases chars@.len() - start,
    {
        let ghost before = views(out@);
        let ghost rest = chars@.skip(start as int);
        let end = first_place(&chars, start, set);
        out.push(string_of(&chars, start, end));
        assert(views(out@) =~= before.push(chars@.subrange(start as int, end as int)));
        if end == chars.len() {
            assert(chars@.subrange(start as int, end as int) =~= rest);
            assert(views(out@) =~= before + seq![rest]);
            return out;
        }
        proof {
            assert(rest.take(end - start) =~= chars@.subrange(start as int, end as int));
            assert(rest.skip(end - start + 1) =~= chars@.skip(end + 1));
            assert(views(out@) + pieces(chars@.skip(end + 1), set) =~= before + (seq![
                rest.take(end - start),
            ] + pieces(rest.skip(end - start + 1), set)));
        }
        start = end + 1;
    }
}

/// The words of `s`.
pub fn split_words(s: &str) -> (r: Vec<String>)
    ensures
        views(r@) == words(s@),
{
    let parts = split_at_set(s, CharSet::Whitespace);
    let mut out: Vec<String> = Vec::new();
    let mut i: usize = 0;
    proof {
        assert(views(parts@).skip(0) =~= views(parts@));
        assert(views(out@) + nonempty_pieces(views(parts@).skip(0)) =~= words(s@));
    }
    while i < parts.len()
        invariant
            i <= parts@.len(),
            views(out@) + nonempty_pieces(views(parts@).skip(i as int)) == words(s@),
        decreases parts@.len() - i,
    {
        let ghost before = views(out@);
        let ghost rest = views(parts@).skip(i as int);
        assert(rest.drop_first() =~= views(parts@).skip(i + 1));
        assert(rest[0] == parts@[i as int]@);
        if !parts[i].as_str().is_empty() {
            out.push(parts[i].clone());
            assert(views(out@) =~= before.push(rest[0]));
            assert(views(out@) + nonempty_pieces(rest.drop_first()) =~= before + (seq![rest[0]]
                + nonempty_pieces(rest.drop_first())));
        }
        i += 1;
    }
    assert(views(parts@).skip(i as int).len() == 0);
    assert(views(out@) + nonempty_pieces(views(parts@).skip(i as int)) =~= views(out@));
    out
}

/// What stands behind the last character of the class, or all of `s`.
pub open spec fn last_piece(s: Seq<char>, set: CharSet) -> Seq<char>
    decreases s.len(),
{
    if s.len() == 0 || set.has(s.last()) {
        Seq::empty()
    } else {
        last_piece(s.drop_last(), set).push(s.last())
    }
}

proof fn lemma_last_piece_whole(s: Seq<char>, set: CharSet)
    requires
        forall|k: int| 0 <= k < s.len() ==> !set.has(#[trigger] s[k]),
    ensures
        last_piece(s, set) == s,
    decreases s.len(),
{
    if s.len() > 0 {
        assert forall|k: int| 0 <= k < s.drop_last().len() implies !set.has(
            #[trigger] s.drop_last()[k],
        ) by {
            assert(!set.has(s[k]));
        }
        lemma_last_piece_whole(s.drop_last(), set);
        assert(s.drop_last().push(s.last()) =~= s);
    }
}

proof fn lemma_last_piece_suffix(s: Seq<char>, set: CharSet, n: int)
    requires
        0 < n <= s.len(),
        set.has(s[n - 1]),
    ensures
        last_piece(s, set) == last_piece(s.skip(n), set),
    decreases s.len(),
{
    if n < s.len() && !set.has(s.last()) {
        assert(s.skip(n).drop_last() =~= s.drop_last().skip(n));
        lemma_last_piece_suffix(s.drop_last(), set, n);
    } else if n == s.len() {
        assert(s.skip(n).len() == 0);
    }
}

pub(crate) fn last_piece_start(chars: &Vec<char>, lo: usize, hi: usize, set: CharSet) -> (r: usize)
    requires
        lo <= hi <= chars@.len(),
    ensures
        lo <= r <= hi,
        last_piece(chars@.subrange(lo as int, hi as int), set) == chars@.subrange(
            r as int,
            hi as int,
        ),
{
    let mut i: usize = hi;
    while i > lo && !set.holds(chars[i - 1])
        invariant
            lo <= i <= hi <= chars@.len(),
            forall|k: int| i <= k < hi ==> !set.has(#[trigger] chars@[k]),
        decreases i,
    {
        i -= 1;
    }
    proof {
        let all = chars@.subrange(lo as int, hi as int);
        let tail = chars@.subrange(i as int, hi as int);
        assert forall|k: int| 0 <= k < tail.len() implies !set.has(#[trigger] tail[k]) by {
            assert(!set.has(chars@[i + k]));
        }
        lemma_last_piece_whole(tail, set);
        if i > lo {
            lemma_last_piece_suffix(all, set, i - lo);
            assert(all.skip(i - lo) =~= tail);
        } else {
            assert(all =~= tail);
        }
    }
    i
}

/// A list of texts with `separator` between them.
pub open spec fn separated(list: Seq<Seq<char>>, separator: Seq<char>) -> Seq<char>
    decreases list.len(),
{
    if list.len() == 0 {
        Seq::empty()
    } else if list.len() == 1 {
        list[0]
    } else {
        separated(list.drop_last(), separator) + separator + list.last()
    }
}

/// A list of texts with `separator` between them.
pub fn separate(list: &Vec<String>, separator: &str) -> (r: String)
    ensures
        r@ == separated(views(list@), separator@),
{
    let ghost all = views(list@);
    let mut out = String::new();
    let mut i: usize = 0;
    assert(all.take(0) =~= Seq::empty());
    while i < list.len()
        invariant
            i <= list@.len(),
            all == views(list@),
            out@ == separated(all.take(i as int), separator@),
        decreases list@.len() - i,
    {
        let ghost before = out@;
        if i > 0 {
            out.append(separator);
        }
        out.append(list[i].as_str());
        proof {
            assert(all.take(i + 1).drop_last() =~= all.take(i as int));
            assert(all.take(i + 1).last() == list@[i as int]@);
            if i == 0 {
                assert(out@ =~= list@[0]@);
            }
        }
        i += 1;
    }
    assert(all.take(i as int) =~= all);
    out
}

// ---------------------------------------------------------------------------
// Lines
// ---------------------------------------------------------------------------

/// A line without the carriage return that belongs to its line ending.
pub open spec fn without_cr(line: Seq<char>) -> Seq<char> {
    if line.len() > 0 && line.last() == '\r' {
        line.drop_last()
    } else {
        line
    }
}

/// The lines of `s`. A line ends in `\n` or `\r\n`; the last one may lack its ending.
pub open spec fn lines_of(s: Seq<char>) -> Seq<Seq<char>>
    decreases s.len(),
{
    let n = first_in(s, CharSet::One('\n'));
    if s.len() == 0 {
        Seq::empty()
    } else if n >= s.len() {
        seq![s]
    } else {
        seq![without_cr(s.take(n as int))] + lines_of(s.skip(n as int + 1))
    }
}

/// The lines of `s`.
pub fn split_lines(s: &str) -> (r: Vec<String>)
    ensures
        views(r@) == lines_of(s@),
{
    let chars = chars_of(s);
    let mut out: Vec<String> = Vec::new();
    let mut start: usize = 0;
    proof {
        assert(chars@.skip(0) =~= chars@);
        assert(views(out@) + lines_of(chars@.skip(0)) =~= lines_of(s@));
    }
    while start < chars.len()
        invariant
            chars@ == s@,
            start <= chars@.len(),
            views(out@) + lines_of(chars@.skip(start as int)) == lines_of(s@),
        decreases chars@.len() - start,
    {
        let ghost before = views(out@);
        let ghost rest = chars@.skip(start as int);
        let end = first_place(&chars, start, CharSet::One('\n'));
        if end == chars.len() {
            out.push(string_of(&chars, start, end));
            assert(chars@.subrange(start as int, end as int) =~= rest);
            assert(views(out@) =~= before + seq![rest]);
            return out;
        }
        let cut: usize = if end > start && chars[end - 1] == '\r' {
            end - 1
        } else {
            end
        };
        out.push(string_of(&chars, start, cut));
        proof {
            let line = chars@.subrange(start as int, end as int);
            assert(rest.take(end - start) =~= line);
            assert(chars@.subrange(start as int, cut as int) =~= without_cr(line));
            assert(rest.skip(end - start + 1) =~= chars@.skip(end + 1));
            assert(views(out@) =~= before.push(without_cr(line)));
            assert(views(out@) + lines_of(chars@.skip(end + 1)) =~= before + (seq![
                without_cr(line),
            ] + lines_of(chars@.skip(end + 1))));
        }
        start = end + 1;
    }
    assert(chars@.skip(start as int).len() == 0);
    assert(views(out@) + lines_of(chars@.skip(start as int)) =~= views(out@));
    out
}

// ---------------------------------------------------------------------------
// Replacing
// ---------------------------------------------------------------------------

/// `to` before every character of `text` and once at its end.
pub open spec fn interleaved(text: Seq<char>, to: Seq<char>) -> Seq<char>
    decreases text.len(),
{
    if text.len() == 0 {
        to
    } else {
        to + seq![text[0]] + interleaved(text.drop_first(), to)
    }
}

/// `text` with every occurrence of `from` replaced by `to`: the leftmost first, and none that
/// overlaps one already replaced.
pub open spec fn replaced(text: Seq<char>, from: Seq<char>, to: Seq<char>) -> Seq<char>
    decreases text.len(),
{
    if from.len() == 0 {
        interleaved(text, to)
    } else if text.len() < from.len() {
        text
    } else if occurs_at(text, from, 0) {
        to + replaced(text.skip(from.len() as int), from, to)
    } else {
        seq![text[0]] + replaced(text.drop_first(), from, to)
    }
}

/// `text` with every occurrence of `from` replaced by `to`.
pub fn replace_text(text: &str, from: &str, to: &str) -> (r: String)
    ensures
        r@ == replaced(text@, from@, to@),
{
    let chars = chars_of(text);
    let pattern = chars_of(from);
    let mut out = String::new();
    let mut i: usize = 0;
    proof {
        assert(chars@.skip(0) =~= chars@);
    }
    if pattern.len() == 0 {
        assert(out@ + interleaved(chars@.skip(0), to@) =~= replaced(text@, from@, to@));
        while i < chars.len()
            invariant
                i <= chars@.len(),
                out@ + interleaved(chars@.skip(i as int), to@) == replaced(text@, from@, to@),
            decreases chars@.len() - i,
        {
            let ghost before = out@;
            let ghost rest = chars@.skip(i as int);
            assert(rest.drop_first() =~= chars@.skip(i + 1));
            out.append(to);
            out.push(chars[i]);
            assert(out@ + interleaved(chars@.skip(i + 1), to@) =~= before + (to@ + seq![rest[0]]
                + interleaved(rest.drop_first(), to@)));
            i += 1;
        }
        out.append(to);
        assert(chars@.skip(i as int).len() == 0);
        return out;
    }
    assert(out@ + replaced(chars@.skip(0), from@, to@) =~= replaced(text@, from@, to@));
    while i < chars.len()
        invariant
            chars@ == text@,
            pattern@ == from@,
            pattern@.len() > 0,
            i <= chars@.len(),
            out@ + replaced(chars@.skip(i as int), from@, to@) == replaced(text@, from@, to@),
        decreases chars@.len() - i,
    {
        let ghost before = out@;
        let ghost rest = chars@.skip(i as int);
        if matches_at(&chars, &pattern, i) {
            proof {
                assert(rest.subrange(0, from@.len() as int) =~= chars@.subrange(
                    i as int,
                    i + from@.len(),
                ));
                assert(rest.skip(from@.len() as int) =~= chars@.skip(i + from@.len()));
            }
            out.append(to);
            i += pattern.len();
            assert(out@ + replaced(chars@.skip(i as int), from@, to@) =~= before + (to@ + replaced(
                rest.skip(from@.len() as int),
                from@,
                to@,
            )));
        } else {
            proof {
                if occurs_at(rest, from@, 0) {
                    assert(rest.subrange(0, from@.len() as int) =~= chars@.subrange(
                        i as int,
                        i + from@.len(),
                    ));
                }
                assert(rest.drop_first() =~= chars@.skip(i + 1));
                lemma_replaced_step(rest, from@, to@);
            }
            out.push(chars[i]);
            i += 1;
            assert(out@ + replaced(chars@.skip(i as int), from@, to@) =~= before + (seq![rest[0]]
                + replaced(rest.drop_first(), from@, to@)));
        }
    }
    assert(chars@.skip(i as int).len() == 0);
    assert(out@ + replaced(chars@.skip(i as int), from@, to@) =~= out@);
    out
}

/// One character that starts no occurrence is kept.
pub proof fn lemma_replaced_step(text: Seq<char>, from: Seq<char>, to: Seq<char>)
    requires
        from.len() > 0,
        text.len() > 0,
        !occurs_at(text, from, 0),
    ensures
        replaced(text, from, to) == seq![text[0]] + replaced(text.drop_first(), from, to),
{
    if text.len() < from.len() {
        assert(replaced(text.drop_first(), from, to) == text.drop_first());
        assert(seq![text[0]] + text.drop_first() =~= text);
    }
}

/// Once `from` is replaced by `to` in `text`, `to` begins nowhere but where it was put.
pub open spec fn is_fresh(text: Seq<char>, from: Seq<char>, to: Seq<char>) -> bool
    decreases text.len(),
{
    if text.len() == 0 {
        true
    } else if from.len() == 0 {
        !occurs_at(seq![text[0]] + interleaved(text.drop_first(), to), to, 0) && is_fresh(
            text.drop_first(),
            from,
            to,
        )
    } else if occurs_at(text, from, 0) {
        is_fresh(text.skip(from.len() as int), from, to)
    } else {
        !occurs_at(replaced(text, from, to), to, 0) && is_fresh(text.drop_first(), from, to)
    }
}

/// Replacing `from` by a fresh text, and that by another, is replacing `from` by the other.
pub proof fn lemma_replaced_twice(
    text: Seq<char>,
    from: Seq<char>,
    middle: Seq<char>,
    to: Seq<char>,
)
    requires
        middle.len() > 0,
        is_fresh(text, from, middle),
    ensures
        replaced(replaced(text, from, middle), middle, to) == replaced(text, from, to),
    decreases text.len(),
{
    let once = replaced(text, from, middle);
    if from.len() == 0 {
        assert(from =~= Seq::empty());
        lemma_interleaved_twice(text, middle, to);
    } else if text.len() == 0 {
    } else if occurs_at(text, from, 0) {
        let rest = text.skip(from.len() as int);
        let tail = replaced(rest, from, middle);
        lemma_replaced_twice(rest, from, middle, to);
        assert(once == middle + tail);
        lemma_replaced_front(tail, middle, to);
    } else {
        let rest = text.drop_first();
        lemma_replaced_twice(rest, from, middle, to);
        lemma_replaced_step(text, from, middle);
        lemma_replaced_step(text, from, to);
        let tail = replaced(rest, from, middle);
        assert(once == seq![text[0]] + tail);
        assert(once.drop_first() =~= tail);
        lemma_replaced_step(once, middle, to);
    }
}

/// An occurrence at the front is replaced.
proof fn lemma_replaced_front(tail: Seq<char>, from: Seq<char>, to: Seq<char>)
    requires
        from.len() > 0,
    ensures
        replaced(from + tail, from, to) == to + replaced(tail, from, to),
{
    let text = from + tail;
    assert(text.subrange(0, from.len() as int) =~= from);
    assert(text.skip(from.len() as int) =~= tail);
}

proof fn lemma_interleaved_twice(text: Seq<char>, middle: Seq<char>, to: Seq<char>)
    requires
        middle.len() > 0,
        is_fresh(text, Seq::empty(), middle),
    ensures
        replaced(interleaved(text, middle), middle, to) == interleaved(text, to),
    decreases text.len(),
{
    if text.len() == 0 {
        lemma_replaced_front(Seq::empty(), middle, to);
        assert(middle + Seq::<char>::empty() =~= middle);
        assert(to + replaced(Seq::empty(), middle, to) =~= to);
    } else {
        let rest = interleaved(text.drop_first(), middle);
        let tail = seq![text[0]] + rest;
        lemma_interleaved_twice(text.drop_first(), middle, to);
        assert(middle + seq![text[0]] + rest =~= middle + tail);
        lemma_replaced_front(tail, middle, to);
        assert(tail.drop_first() =~= rest);
        lemma_replaced_step(tail, middle, to);
        assert(to + (seq![text[0]] + interleaved(text.drop_first(), to)) =~= to + seq![text[0]]
            + interleaved(text.drop_first(), to));
    }
}

// ---------------------------------------------------------------------------
// ASCII case
// ---------------------------------------------------------------------------

pub open spec fn ascii_lower(c: char) -> char {
    if 'A' <= c <= 'Z' {
        ((c as u32) + 32) as char
    } else {
        c
    }
}

/// `a` and `b` are equal when the case of ASCII letters is ignored.
pub open spec fn same_ignoring_case(a: Seq<char>, b: Seq<char>) -> bool {
    a.len() == b.len() && forall|i: int|
        0 <= i < a.len() ==> ascii_lower(#[trigger] a[i]) == ascii_lower(b[i])
}

fn lower(c: char) -> (r: char)
    ensures
        r == ascii_lower(c),
{
    if 'A' <= c && c <= 'Z' {
        ((c as u8) + 32) as char
    } else {
        c
    }
}

/// Whether `a` and `b` are equal when the case of ASCII letters is ignored.
pub fn eq_ignoring_case(a: &str, b: &str) -> (r: bool)
    ensures
        r == same_ignoring_case(a@, b@),
{
    let x = chars_of(a);
    let y = chars_of(b);
    if x.len() != y.len() {
        return false;
    }
    let mut i: usize = 0;
    while i < x.len()
        invariant
            i <= x@.len() == y@.len(),
            x@ == a@,
            y@ == b@,
            forall|k: int| 0 <= k < i ==> ascii_lower(#[trigger] x@[k]) == ascii_lower(y@[k]),
        decreases x@.len() - i,
    {
        if lower(x[i]) != lower(y[i]) {
            assert(ascii_lower(a@[i as int]) != ascii_lower(b@[i as int]));
            return false;
        }
        i += 1;
    }
    true
}

// ---------------------------------------------------------------------------
// Bytes
// ---------------------------------------------------------------------------

/// The number of bytes of `c` in UTF-8.
pub open spec fn char_width(c: char) -> nat {
    if c <= '\u{7f}' {
        1
    } else if c <= '\u{7ff}' {
        2
    } else if c <= '\u{ffff}' {
        3
    } else {
        4
    }
}

/// The number of bytes of `s` in UTF-8.
pub open spec fn byte_len(s: Seq<char>) -> nat
    decreases s.len(),
{
    if s.len() == 0 {
        0
    } else {
        char_width(s[0]) + byte_len(s.drop_first())
    }
}

proof fn lemma_width(c: char)
    ensures
        encode_scalar(c as u32).len() == char_width(c),
{
    char_is_scalar(c);
    let v = c as u32;
    assert(v as int == c as int);
}

/// `byte_len` is the length of the UTF-8 encoding.
pub proof fn lemma_byte_len_is_utf8(s: Seq<char>)
    ensures
        byte_len(s) == encode_utf8(s).len(),
    decreases s.len(),
{
    if s.len() > 0 {
        lemma_byte_len_is_utf8(s.drop_first());
        lemma_width(s[0]);
    }
}

/// The number of leading characters of `s` that fit into `limit` bytes.
pub open spec fn fitting(s: Seq<char>, limit: nat) -> nat
    decreases s.len(),
{
    if s.len() == 0 || char_width(s[0]) > limit {
        0
    } else {
        1 + fitting(s.drop_first(), (limit - char_width(s[0])) as nat)
    }
}

/// The place of the character that begins at byte `offset` of `s`, where one does, or the length
/// of `s` where `s` ends there.
pub open spec fn char_at_byte(s: Seq<char>, offset: nat) -> Option<nat>
    decreases s.len(),
{
    if offset == 0 {
        Some(0)
    } else if s.len() == 0 || char_width(s[0]) > offset {
        None
    } else {
        match char_at_byte(s.drop_first(), (offset - char_width(s[0])) as nat) {
            Some(i) => Some(i + 1),
            None => None,
        }
    }
}

/// The bytes of `s` from `from` up to `to`, where both are character boundaries.
pub open spec fn byte_range(s: Seq<char>, from: nat, to: nat) -> Option<Seq<char>> {
    match (char_at_byte(s, from), char_at_byte(s, to)) {
        (Some(i), Some(j)) => if from <= to {
            Some(s.subrange(i as int, j as int))
        } else {
            None
        },
        _ => None,
    }
}

/// A prefix chosen by `fitting` fits, and no longer one does.
pub proof fn lemma_fitting(s: Seq<char>, limit: nat)
    ensures
        fitting(s, limit) <= s.len(),
        byte_len(s.take(fitting(s, limit) as int)) <= limit,
        forall|n: int|
            fitting(s, limit) < n <= s.len() ==> byte_len(#[trigger] s.take(n)) > limit,
    decreases s.len(),
{
    if s.len() == 0 || char_width(s[0]) > limit {
        assert forall|n: int| 0 < n <= s.len() implies byte_len(#[trigger] s.take(n)) > limit by {
            assert(s.take(n)[0] == s[0]);
        }
        assert(s.take(0).len() == 0);
    } else {
        let rest = s.drop_first();
        let room = (limit - char_width(s[0])) as nat;
        lemma_fitting(rest, room);
        let k = fitting(s, limit) as int;
        assert(s.take(k).drop_first() =~= rest.take(k - 1));
        assert forall|n: int| k < n <= s.len() implies byte_len(#[trigger] s.take(n)) > limit by {
            assert(s.take(n).drop_first() =~= rest.take(n - 1));
        }
    }
}

fn width(c: char) -> (r: usize)
    ensures
        r == char_width(c),
{
    if c <= '\u{7f}' {
        1
    } else if c <= '\u{7ff}' {
        2
    } else if c <= '\u{ffff}' {
        3
    } else {
        4
    }
}

/// The longest prefix of `s` of at most `limit` bytes.
pub fn byte_prefix(s: &str, limit: usize) -> (r: String)
    ensures
        r@ == s@.take(fitting(s@, limit as nat) as int),
{
    let chars = chars_of(s);
    let mut i: usize = 0;
    let mut room: usize = limit;
    assert(chars@.skip(0) =~= chars@);
    while i < chars.len() && width(chars[i]) <= room
        invariant
            chars@ == s@,
            i <= chars@.len(),
            fitting(s@, limit as nat) == i + fitting(chars@.skip(i as int), room as nat),
        decreases chars@.len() - i,
    {
        assert(chars@.skip(i as int).drop_first() =~= chars@.skip(i + 1));
        room -= width(chars[i]);
        i += 1;
    }
    assert(chars@.subrange(0, i as int) =~= s@.take(i as int));
    string_of(&chars, 0, i)
}

fn place_at_byte(chars: &Vec<char>, offset: usize) -> (r: Option<usize>)
    ensures
        r matches Some(i) ==> char_at_byte(chars@, offset as nat) == Some(i as nat) && i
            <= chars@.len(),
        r is None ==> char_at_byte(chars@, offset as nat) is None,
{
    let mut i: usize = 0;
    let mut left: usize = offset;
    assert(chars@.skip(0) =~= chars@);
    while left > 0
        invariant
            i <= chars@.len(),
            char_at_byte(chars@, offset as nat) is Some == char_at_byte(
                chars@.skip(i as int),
                left as nat,
            ) is Some,
            char_at_byte(chars@.skip(i as int), left as nat) matches Some(k) ==> char_at_byte(
                chars@,
                offset as nat,
            ) == Some((i + k) as nat),
        decreases left,
    {
        if i == chars.len() || width(chars[i]) > left {
            return None;
        }
        assert(chars@.skip(i as int).drop_first() =~= chars@.skip(i + 1));
        left -= width(chars[i]);
        i += 1;
    }
    Some(i)
}

/// A later byte begins a later character.
pub proof fn lemma_char_at_byte_order(s: Seq<char>, from: nat, to: nat)
    requires
        from <= to,
        char_at_byte(s, from) is Some,
        char_at_byte(s, to) is Some,
    ensures
        char_at_byte(s, from)->0 <= char_at_byte(s, to)->0 <= s.len(),
    decreases s.len(),
{
    if from > 0 {
        let w = char_width(s[0]);
        lemma_char_at_byte_order(s.drop_first(), (from - w) as nat, (to - w) as nat);
    } else if to > 0 {
        let w = char_width(s[0]);
        lemma_char_at_byte_order(s.drop_first(), 0, (to - w) as nat);
    }
}

/// The bytes of `s` from `from` up to `to`, where both are character boundaries.
pub fn slice_bytes(s: &str, from: usize, to: usize) -> (r: Option<String>)
    ensures
        view_opt(r) == byte_range(s@, from as nat, to as nat),
{
    if from > to {
        return None;
    }
    let chars = chars_of(s);
    match (place_at_byte(&chars, from), place_at_byte(&chars, to)) {
        (Some(i), Some(j)) => {
            proof {
                lemma_char_at_byte_order(s@, from as nat, to as nat);
            }
            Some(string_of(&chars, i, j))
        },
        _ => None,
    }
}

/// The byte at which the first occurrence of `needle` begins.
pub open spec fn byte_index_of(hay: Seq<char>, needle: Seq<char>) -> Option<nat> {
    match index_of(hay, needle) {
        Some(i) => Some(byte_len(hay.take(i))),
        None => None,
    }
}

/// A place reached by a byte offset lies no further than the offset, and the offset lies within
/// the text.
pub proof fn lemma_char_at_byte_bounds(s: Seq<char>, offset: nat)
    ensures
        char_at_byte(s, offset) matches Some(i) ==> i <= offset && i <= s.len() && offset
            <= byte_len(s),
    decreases s.len(),
{
    if offset > 0 && s.len() > 0 && char_width(s[0]) <= offset {
        lemma_char_at_byte_bounds(s.drop_first(), (offset - char_width(s[0])) as nat);
    }
}

/// The bytes that `s` takes.
pub fn byte_length(s: &str) -> (r: usize)
    ensures
        r == byte_len(s@),
{
    proof {
        lemma_byte_len_is_utf8(s@);
    }
    s.as_bytes().len()
}

proof fn lemma_byte_len_take(s: Seq<char>, i: int)
    requires
        0 <= i < s.len(),
    ensures
        byte_len(s.take(i + 1)) == byte_len(s.take(i)) + char_width(s[i]),
        byte_len(s.take(i + 1)) <= byte_len(s),
    decreases s.len(),
{
    if i == 0 {
        assert(s.take(1).drop_first() =~= Seq::empty());
        assert(s.take(0) =~= Seq::empty());
    } else {
        lemma_byte_len_take(s.drop_first(), i - 1);
        assert(s.take(i + 1).drop_first() =~= s.drop_first().take(i));
        assert(s.take(i).drop_first() =~= s.drop_first().take(i - 1));
    }
}

/// The byte at which `needle` first stands in `hay`.
pub fn find_byte(hay: &str, needle: &str) -> (r: Option<usize>)
    ensures
        r is Some == byte_index_of(hay@, needle@) is Some,
        r matches Some(b) ==> byte_index_of(hay@, needle@) == Some(b as nat),
{
    let chars = chars_of(hay);
    let total: usize = byte_length(hay);
    match find_in(&chars, &chars_of(needle), 0) {
        None => None,
        Some(place) => {
            proof {
                lemma_index_from(hay@, needle@, 0);
            }
            let mut i: usize = 0;
            let mut bytes: usize = 0;
            assert(chars@.take(0) =~= Seq::empty());
            while i < place
                invariant
                    i <= place <= chars@.len(),
                    total == byte_len(chars@),
                    bytes == byte_len(chars@.take(i as int)),
                decreases place - i,
            {
                proof {
                    lemma_byte_len_take(chars@, i as int);
                }
                bytes += width(chars[i]);
                i += 1;
            }
            Some(bytes)
        },
    }
}

} // verus!
