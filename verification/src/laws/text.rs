//! What reading and rewriting text comes to.

use crate::text::{
    ascii_lower, begins_with, byte_index_of, byte_len, byte_range, char_at_byte, contains_text,
    drop_trailing, fitting, index_of, interleaved, is_hex, is_space, last_index, last_piece,
    lemma_first_in, lemma_first_in_bounds, lemma_fitting, lemma_index_from, lines_of,
    nonempty_pieces, occurs_at, pieces, replaced, same_ignoring_case, separated, skip_leading,
    trimmed, words, CharSet,
};
use vstd::prelude::*;

verus! {

broadcast use vstd::string::group_string_axioms;

// ---------------------------------------------------------------------------
// Classes of characters
// ---------------------------------------------------------------------------

/// The classes of characters, by their code points.
pub proof fn law_classes_of_characters(c: char, x: char)
    ensures
        ({
            let n = c as u32;
            &&& is_space(c) <==> {
                ||| n == 9 || n == 10 || n == 11 || n == 12 || n == 13 || n == 32
                ||| n == 0x85 || n == 0xa0 || n == 0x1680
                ||| 0x2000 <= n <= 0x200a
                ||| n == 0x2028 || n == 0x2029 || n == 0x202f || n == 0x205f || n == 0x3000
            }
            &&& is_hex(c) <==> 48 <= n <= 57 || 97 <= n <= 102 || 65 <= n <= 70
            &&& CharSet::Whitespace.has(c) <==> is_space(c)
            &&& CharSet::Slashes.has(c) <==> n == 47 || n == 92
            &&& CharSet::DateMarks.has(c) <==> n == 47 || n == 95 || n == 45
            &&& CharSet::IdChars.has(c) <==> is_hex(c) || n == 45
            &&& CharSet::One(x).has(c) <==> c == x
        }),
{
}

// ---------------------------------------------------------------------------
// Trimming
// ---------------------------------------------------------------------------

/// How many leading characters of the class `s` has.
pub(crate) proof fn lemma_skipped(s: Seq<char>, set: CharSet) -> (n: int)
    ensures
        0 <= n <= s.len(),
        skip_leading(s, set) == s.skip(n),
        forall|i: int| 0 <= i < n ==> set.has(#[trigger] s[i]),
        n < s.len() ==> !set.has(s[n]),
    decreases s.len(),
{
    if s.len() > 0 && set.has(s[0]) {
        let rest = s.drop_first();
        let m = lemma_skipped(rest, set);
        assert(rest.skip(m) =~= s.skip(m + 1));
        assert forall|i: int| 0 <= i < m + 1 implies set.has(#[trigger] s[i]) by {
            if i > 0 {
                assert(set.has(rest[i - 1]));
            }
        }
        if m + 1 < s.len() {
            assert(!set.has(rest[m]));
        }
        m + 1
    } else {
        assert(s.skip(0) =~= s);
        0
    }
}

/// What is left of `s` without its trailing characters of the class.
pub(crate) proof fn lemma_dropped(s: Seq<char>, set: CharSet) -> (n: int)
    ensures
        0 <= n <= s.len(),
        drop_trailing(s, set) == s.take(n),
        forall|i: int| n <= i < s.len() ==> set.has(#[trigger] s[i]),
        n > 0 ==> !set.has(s[n - 1]),
    decreases s.len(),
{
    if s.len() > 0 && set.has(s.last()) {
        let rest = s.drop_last();
        let m = lemma_dropped(rest, set);
        assert(rest.take(m) =~= s.take(m));
        assert forall|i: int| m <= i < s.len() implies set.has(#[trigger] s[i]) by {
            if i < rest.len() {
                assert(set.has(rest[i]));
            }
        }
        if m > 0 {
            assert(!set.has(rest[m - 1]));
        }
        m
    } else {
        assert(s.take(s.len() as int) =~= s);
        s.len() as int
    }
}

/// What is dropped at the start of a text are its leading characters of the class, all of them and
/// nothing else.
pub proof fn law_leading_characters_are_dropped(s: Seq<char>, set: CharSet)
    ensures
        exists|n: int|
            0 <= n <= s.len() && skip_leading(s, set) == #[trigger] s.skip(n) && (forall|i: int|
                0 <= i < n ==> set.has(#[trigger] s[i])) && (n < s.len() ==> !set.has(s[n])),
{
    let n = lemma_skipped(s, set);
    assert(skip_leading(s, set) == s.skip(n));
}

/// What is dropped at the end of a text are its trailing characters of the class, all of them and
/// nothing else.
pub proof fn law_trailing_characters_are_dropped(s: Seq<char>, set: CharSet)
    ensures
        exists|n: int|
            0 <= n <= s.len() && drop_trailing(s, set) == #[trigger] s.take(n) && (forall|i: int|
                n <= i < s.len() ==> set.has(#[trigger] s[i])) && (n > 0 ==> !set.has(s[n - 1])),
{
    let n = lemma_dropped(s, set);
    assert(drop_trailing(s, set) == s.take(n));
}

/// The range that trimming leaves.
pub(crate) proof fn lemma_trimmed_range(s: Seq<char>) -> (r: (int, int))
    ensures
        0 <= r.0 <= r.1 <= s.len(),
        trimmed(s) == s.subrange(r.0, r.1),
        forall|i: int| 0 <= i < r.0 ==> is_space(#[trigger] s[i]),
        forall|i: int| r.1 <= i < s.len() ==> is_space(#[trigger] s[i]),
        r.0 < r.1 ==> !is_space(s[r.0]) && !is_space(s[r.1 - 1]),
{
    let lo = lemma_skipped(s, CharSet::Whitespace);
    let rest = s.skip(lo);
    let n = lemma_dropped(rest, CharSet::Whitespace);
    assert(rest.take(n) =~= s.subrange(lo, lo + n));
    assert forall|i: int| 0 <= i < lo implies is_space(#[trigger] s[i]) by {
        assert(CharSet::Whitespace.has(s[i]));
    }
    assert forall|i: int| lo + n <= i < s.len() implies is_space(#[trigger] s[i]) by {
        assert(CharSet::Whitespace.has(rest[i - lo]));
    }
    if n > 0 {
        assert(!CharSet::Whitespace.has(rest[n - 1]));
    }
    (lo, lo + n)
}

/// Trimming takes the white space off the two ends of a text, all of it and nothing else.
pub proof fn law_trimming_takes_white_space_off_the_ends(s: Seq<char>)
    ensures
        exists|lo: int, hi: int|
            0 <= lo <= hi <= s.len() && trimmed(s) == #[trigger] s.subrange(lo, hi) && (forall|
                i: int,
            |
                0 <= i < lo || hi <= i < s.len() ==> is_space(#[trigger] s[i])) && (lo < hi
                ==> !is_space(s[lo]) && !is_space(s[hi - 1])),
{
    let (lo, hi) = lemma_trimmed_range(s);
    assert(trimmed(s) == s.subrange(lo, hi));
}

/// Something is left of a trimmed text exactly where not all of it was white space.
pub proof fn law_only_blank_text_is_trimmed_away(s: Seq<char>)
    ensures
        trimmed(s).len() > 0 <==> exists|i: int| 0 <= i < s.len() && !is_space(#[trigger] s[i]),
{
    let (lo, hi) = lemma_trimmed_range(s);
    if lo < hi {
        assert(!is_space(s[lo]));
    }
}

/// To trim a text once more changes nothing, nor do blanks around it.
pub proof fn law_blanks_around_a_text_do_not_matter(a: Seq<char>, s: Seq<char>, b: Seq<char>)
    requires
        forall|i: int| 0 <= i < a.len() ==> is_space(#[trigger] a[i]),
        forall|i: int| 0 <= i < b.len() ==> is_space(#[trigger] b[i]),
    ensures
        trimmed(trimmed(s)) == trimmed(s),
        trimmed(a + s + b) == trimmed(s),
{
    let (lo, hi) = lemma_trimmed_range(s);
    let t = trimmed(s);
    let (l2, h2) = lemma_trimmed_range(t);
    if t.len() > 0 {
        assert(t[0] == s[lo] && t[t.len() - 1] == s[hi - 1]);
        assert(l2 == 0 && h2 == t.len());
    }
    assert(t.subrange(l2, h2) =~= t);
    let w = a + s + b;
    let (l3, h3) = lemma_trimmed_range(w);
    assert forall|i: int| 0 <= i < a.len() implies is_space(#[trigger] w[i]) by {
        assert(w[i] == a[i]);
    }
    assert forall|i: int| 0 <= i < s.len() implies #[trigger] w[a.len() + i] == s[i] by {}
    assert forall|i: int| a.len() + s.len() <= i < w.len() implies is_space(#[trigger] w[i]) by {
        assert(w[i] == b[i - a.len() - s.len()]);
    }
    if lo < hi {
        assert(w[a.len() + lo] == s[lo] && w[a.len() + hi - 1] == s[hi - 1]);
        assert(l3 <= a.len() + lo) by {
            if l3 > a.len() + lo {
                assert(is_space(w[a.len() + lo]));
            }
        }
        assert(h3 >= a.len() + hi) by {
            if h3 < a.len() + hi {
                assert(is_space(w[a.len() + hi - 1]));
            }
        }
        if l3 < a.len() + lo {
            if l3 >= a.len() {
                assert(w[a.len() + (l3 - a.len())] == s[l3 - a.len()]);
            }
            assert(is_space(w[l3]));
        }
        if h3 > a.len() + hi {
            if h3 - 1 < a.len() + s.len() {
                assert(w[a.len() + (h3 - 1 - a.len())] == s[h3 - 1 - a.len()]);
            }
            assert(is_space(w[h3 - 1]));
        }
        assert(w.subrange(l3, h3) =~= s.subrange(lo, hi));
    } else {
        if l3 < h3 {
            if a.len() <= l3 < a.len() + s.len() {
                assert(w[a.len() + (l3 - a.len())] == s[l3 - a.len()]);
                assert(is_space(s[l3 - a.len()]));
            }
            assert(is_space(w[l3]));
        }
        assert(w.subrange(l3, h3) =~= s.subrange(lo, hi));
    }
}

// ---------------------------------------------------------------------------
// Searching
// ---------------------------------------------------------------------------

/// A text stands at a place exactly where the whole is what comes before, that text, and what comes
/// behind.
pub proof fn law_where_a_text_stands(hay: Seq<char>, needle: Seq<char>, i: int)
    ensures
        occurs_at(hay, needle, i) <==> exists|a: Seq<char>, b: Seq<char>|
            a.len() == i && hay == #[trigger] (a + needle + b),
        begins_with(hay, needle) <==> exists|b: Seq<char>| hay == #[trigger] (needle + b),
{
    if occurs_at(hay, needle, i) {
        let a = hay.take(i);
        let b = hay.skip(i + needle.len());
        assert(hay =~= a + hay.subrange(i, i + needle.len()) + b);
    }
    if exists|a: Seq<char>, b: Seq<char>| a.len() == i && hay == #[trigger] (a + needle + b) {
        let (a, b) = choose|a: Seq<char>, b: Seq<char>|
            a.len() == i && hay == #[trigger] (a + needle + b);
        assert(hay.subrange(i, i + needle.len()) =~= needle);
    }
    if begins_with(hay, needle) {
        let b = hay.skip(needle.len() as int);
        assert(hay =~= hay.subrange(0, needle.len() as int) + b);
    }
    if exists|b: Seq<char>| hay == #[trigger] (needle + b) {
        let b = choose|b: Seq<char>| hay == #[trigger] (needle + b);
        assert(hay.subrange(0, needle.len() as int) =~= needle);
    }
}

/// A search finds the first place where a text stands, and fails only where it stands nowhere.
pub proof fn law_the_first_place_is_found(hay: Seq<char>, needle: Seq<char>)
    ensures
        index_of(hay, needle) matches Some(k) ==> 0 <= k && k + needle.len() <= hay.len()
            && hay.subrange(k, k + needle.len()) == needle && forall|j: int|
            0 <= j < k ==> #[trigger] hay.subrange(j, j + needle.len()) != needle,
        index_of(hay, needle) is None ==> forall|j: int|
            0 <= j <= hay.len() - needle.len() ==> #[trigger] hay.subrange(j, j + needle.len())
                != needle,
        contains_text(hay, needle) <==> exists|a: Seq<char>, b: Seq<char>|
            hay == #[trigger] (a + needle + b),
{
    lemma_index_from(hay, needle, 0);
    if let Some(k) = index_of(hay, needle) {
        assert forall|j: int| 0 <= j < k implies #[trigger] hay.subrange(j, j + needle.len())
            != needle by {
            assert(!occurs_at(hay, needle, j));
        }
        law_where_a_text_stands(hay, needle, k);
    } else {
        assert forall|j: int| 0 <= j <= hay.len() - needle.len() implies #[trigger] hay.subrange(
            j,
            j + needle.len(),
        ) != needle by {
            assert(!occurs_at(hay, needle, j));
        }
        if exists|a: Seq<char>, b: Seq<char>| hay == #[trigger] (a + needle + b) {
            let (a, b) = choose|a: Seq<char>, b: Seq<char>| hay == #[trigger] (a + needle + b);
            law_where_a_text_stands(hay, needle, a.len() as int);
            assert(occurs_at(hay, needle, a.len() as int));
        }
    }
}

/// The last place of a character is found: it stands there, and nowhere behind.
pub proof fn law_the_last_place_is_found(s: Seq<char>, c: char)
    ensures
        last_index(s, c) matches Some(k) ==> 0 <= k < s.len() && s[k] == c && forall|j: int|
            k < j < s.len() ==> #[trigger] s[j] != c,
        last_index(s, c) is None ==> !s.contains(c),
    decreases s.len(),
{
    if s.len() > 0 && s.last() != c {
        let rest = s.drop_last();
        law_the_last_place_is_found(rest, c);
        if let Some(k) = last_index(s, c) {
            assert forall|j: int| k < j < s.len() implies #[trigger] s[j] != c by {
                if j < rest.len() {
                    assert(rest[j] != c);
                }
            }
        } else {
            assert forall|j: int| 0 <= j < s.len() implies #[trigger] s[j] != c by {
                if j < rest.len() {
                    assert(rest[j] == s[j]);
                    assert(rest.contains(rest[j]));
                }
            }
        }
    }
}

// ---------------------------------------------------------------------------
// Splitting
// ---------------------------------------------------------------------------

/// No character of `s` belongs to the class.
pub open spec fn is_free_of(s: Seq<char>, set: CharSet) -> bool {
    forall|i: int| 0 <= i < s.len() ==> !set.has(#[trigger] s[i])
}

/// The first character of the class behind a text that is free of it.
proof fn lemma_first_behind(a: Seq<char>, c: char, b: Seq<char>, set: CharSet)
    requires
        is_free_of(a, set),
        set.has(c),
    ensures
        first_in_is(a + seq![c] + b, set, a.len() as int),
{
    let s = a + seq![c] + b;
    assert forall|k: int| 0 <= k < a.len() implies !set.has(#[trigger] s[k]) by {
        assert(s[k] == a[k]);
    }
    lemma_first_in(s, set, a.len() as int);
}

spec fn first_in_is(s: Seq<char>, set: CharSet, n: int) -> bool {
    crate::text::first_in(s, set) == n
}

/// A text without separators is one piece. A separator parts the pieces before it from those behind
/// it, wherever it stands: two in a row have an empty piece between them.
pub proof fn law_separators_part_the_pieces(a: Seq<char>, c: char, b: Seq<char>, set: CharSet)
    requires
        set.has(c),
    ensures
        pieces(a + seq![c] + b, set) == pieces(a, set) + pieces(b, set),
        is_free_of(a, set) ==> pieces(a, set) == seq![a],
    decreases a.len(),
{
    let s = a + seq![c] + b;
    lemma_first_in_bounds(a, set);
    let n = crate::text::first_in(a, set) as int;
    if n == a.len() {
        lemma_first_behind(a, c, b, set);
        assert(s.take(n) =~= a);
        assert(s.skip(n + 1) =~= b);
    } else {
        let head = a.take(n);
        let tail = a.skip(n + 1);
        assert(is_free_of(head, set)) by {
            assert forall|i: int| 0 <= i < head.len() implies !set.has(#[trigger] head[i]) by {
                assert(head[i] == a[i]);
            }
        }
        assert(s =~= head + seq![a[n]] + (tail + seq![c] + b));
        lemma_first_behind(head, a[n], tail + seq![c] + b, set);
        assert(s.take(n) =~= head);
        assert(s.skip(n + 1) =~= tail + seq![c] + b);
        law_separators_part_the_pieces(tail, c, b, set);
        assert(seq![head] + (pieces(tail, set) + pieces(b, set)) =~= seq![head] + pieces(tail, set)
            + pieces(b, set));
        assert(!is_free_of(a, set));
    }
}

/// Every piece is free of separators.
pub proof fn law_pieces_hold_no_separator(s: Seq<char>, set: CharSet, i: int)
    requires
        0 <= i < pieces(s, set).len(),
    ensures
        is_free_of(pieces(s, set)[i], set),
    decreases s.len(),
{
    lemma_first_in_bounds(s, set);
    let n = crate::text::first_in(s, set) as int;
    if n < s.len() {
        if i == 0 {
            assert(pieces(s, set)[0] == s.take(n));
        } else {
            law_pieces_hold_no_separator(s.skip(n + 1), set, i - 1);
            assert(pieces(s, set)[i] == pieces(s.skip(n + 1), set)[i - 1]);
        }
    }
}

proof fn lemma_nonempty_pieces(a: Seq<Seq<char>>, b: Seq<Seq<char>>)
    ensures
        nonempty_pieces(a + b) == nonempty_pieces(a) + nonempty_pieces(b),
    decreases a.len(),
{
    if a.len() == 0 {
        assert(a + b =~= b);
        assert(nonempty_pieces(a) + nonempty_pieces(b) =~= nonempty_pieces(b));
    } else {
        assert((a + b).drop_first() =~= a.drop_first() + b);
        lemma_nonempty_pieces(a.drop_first(), b);
        assert(seq![a[0]] + (nonempty_pieces(a.drop_first()) + nonempty_pieces(b)) =~= seq![a[0]]
            + nonempty_pieces(a.drop_first()) + nonempty_pieces(b));
    }
}

/// A text without white space is one word, unless it is empty. White space parts the words before it
/// from those behind it.
pub proof fn law_white_space_parts_the_words(a: Seq<char>, c: char, b: Seq<char>)
    requires
        is_space(c),
    ensures
        words(a + seq![c] + b) == words(a) + words(b),
        a.len() == 0 ==> words(a).len() == 0,
        a.len() > 0 && (forall|i: int| 0 <= i < a.len() ==> !is_space(#[trigger] a[i])) ==> words(a)
            == seq![a],
{
    law_separators_part_the_pieces(a, c, b, CharSet::Whitespace);
    lemma_nonempty_pieces(pieces(a, CharSet::Whitespace), pieces(b, CharSet::Whitespace));
    if a.len() == 0 {
        assert(is_free_of(a, CharSet::Whitespace));
        assert(nonempty_pieces(seq![a]) == nonempty_pieces(seq![a].drop_first()));
        assert(seq![a].drop_first().len() == 0);
    } else if forall|i: int| 0 <= i < a.len() ==> !is_space(#[trigger] a[i]) {
        assert(is_free_of(a, CharSet::Whitespace));
        assert(seq![a].drop_first().len() == 0);
        assert(nonempty_pieces(seq![a]) =~= seq![a]);
    }
}

/// What stands behind the last separator is the last piece; a text without separators is its own.
pub proof fn law_the_last_piece_stands_behind_the_last_separator(
    a: Seq<char>,
    c: char,
    b: Seq<char>,
    set: CharSet,
)
    requires
        set.has(c),
        is_free_of(b, set),
    ensures
        last_piece(b, set) == b,
        last_piece(a + seq![c] + b, set) == b,
    decreases b.len(),
{
    let s = a + seq![c] + b;
    if b.len() == 0 {
        assert(s.last() == c);
        assert(b =~= Seq::empty());
    } else {
        let short = b.drop_last();
        assert forall|i: int| 0 <= i < short.len() implies !set.has(#[trigger] short[i]) by {
            assert(short[i] == b[i]);
        }
        law_the_last_piece_stands_behind_the_last_separator(a, c, short, set);
        assert(s.last() == b[b.len() - 1]);
        assert(s.drop_last() =~= a + seq![c] + short);
        assert(short.push(b.last()) =~= b);
    }
}

/// A list of one text is that text; between what two lists give stands the separator.
pub proof fn law_a_separator_stands_between_texts(
    a: Seq<Seq<char>>,
    b: Seq<Seq<char>>,
    separator: Seq<char>,
)
    requires
        a.len() > 0,
        b.len() > 0,
    ensures
        separated(a + b, separator) == separated(a, separator) + separator + separated(
            b,
            separator,
        ),
        a.len() == 1 ==> separated(a, separator) == a[0],
        separated(Seq::empty(), separator) == Seq::<char>::empty(),
    decreases b.len(),
{
    let all = a + b;
    if b.len() == 1 {
        assert(all.drop_last() =~= a);
        assert(all.last() == b[0]);
    } else {
        let short = b.drop_last();
        assert(all.drop_last() =~= a + short);
        assert(all.last() == b.last());
        law_a_separator_stands_between_texts(a, short, separator);
        assert(separated(a, separator) + separator + separated(short, separator) + separator
            + b.last() =~= separated(a, separator) + separator + (separated(short, separator)
            + separator + b.last()));
    }
}

/// A line ends where `\n` stands, and loses one `\r` before it; what stands behind the last `\n` is
/// a line too, unless it is empty, and keeps its `\r`.
pub proof fn law_where_lines_end(a: Seq<char>, b: Seq<char>)
    requires
        is_free_of(a, CharSet::One('\n')),
    ensures
        a.len() == 0 ==> lines_of(a).len() == 0,
        a.len() > 0 ==> lines_of(a) == seq![a],
        a.len() > 0 && a.last() == '\r' ==> lines_of(a + seq!['\n'] + b) == seq![a.drop_last()]
            + lines_of(b),
        !(a.len() > 0 && a.last() == '\r') ==> lines_of(a + seq!['\n'] + b) == seq![a] + lines_of(
            b,
        ),
{
    lemma_first_in(a, CharSet::One('\n'), a.len() as int);
    lemma_first_behind(a, '\n', b, CharSet::One('\n'));
    let s = a + seq!['\n'] + b;
    assert(s.take(a.len() as int) =~= a);
    assert(s.skip(a.len() as int + 1) =~= b);
}

// ---------------------------------------------------------------------------
// Replacing
// ---------------------------------------------------------------------------

/// Nothing changes where the text that is replaced does not stand.
pub proof fn law_nothing_is_replaced_where_nothing_stands(
    a: Seq<char>,
    from: Seq<char>,
    to: Seq<char>,
)
    requires
        from.len() > 0,
        !contains_text(a, from),
    ensures
        replaced(a, from, to) == a,
    decreases a.len(),
{
    if a.len() >= from.len() {
        let rest = a.drop_first();
        lemma_index_from(a, from, 0);
        lemma_index_from(rest, from, 0);
        if let Some(i) = index_of(rest, from) {
            assert(a.subrange(i + 1, i + 1 + from.len()) =~= rest.subrange(i, i + from.len()));
            assert(occurs_at(a, from, i + 1));
        }
        assert(!occurs_at(a, from, 0));
        law_nothing_is_replaced_where_nothing_stands(rest, from, to);
        assert(seq![a[0]] + rest =~= a);
    }
}

/// The first occurrence is replaced, what comes before it stays, and the rest is gone through in
/// the same way.
pub proof fn law_the_first_occurrence_is_replaced(
    a: Seq<char>,
    b: Seq<char>,
    from: Seq<char>,
    to: Seq<char>,
)
    requires
        from.len() > 0,
        index_of(a + from + b, from) == Some(a.len() as int),
    ensures
        replaced(a + from + b, from, to) == a + to + replaced(b, from, to),
    decreases a.len(),
{
    let s = a + from + b;
    lemma_index_from(s, from, 0);
    if a.len() == 0 {
        assert(s =~= from + b);
        assert(s.subrange(0, from.len() as int) =~= from);
        assert(s.skip(from.len() as int) =~= b);
        assert(a + to + replaced(b, from, to) =~= to + replaced(b, from, to));
    } else {
        let rest = a.drop_first();
        let t = rest + from + b;
        assert(s.drop_first() =~= t);
        lemma_index_from(t, from, 0);
        let n = rest.len() as int;
        assert(t.subrange(n, n + from.len()) =~= from);
        assert(occurs_at(t, from, n));
        let i = index_of(t, from)->0;
        assert(s.subrange(i + 1, i + 1 + from.len()) =~= t.subrange(i, i + from.len()));
        assert(occurs_at(s, from, i + 1));
        assert(i == n);
        law_the_first_occurrence_is_replaced(rest, b, from, to);
        assert(!occurs_at(s, from, 0));
        crate::text::lemma_replaced_step(s, from, to);
        assert(s[0] == a[0]);
        assert(seq![a[0]] + (rest + to + replaced(b, from, to)) =~= a + to + replaced(b, from, to));
    }
}

/// Where an empty text is replaced, the other is put before every character and at the end.
pub proof fn law_an_empty_text_stands_between_all_characters(text: Seq<char>, to: Seq<char>, i: int)
    requires
        0 <= i < text.len(),
    ensures
        ({
            let r = replaced(text, Seq::empty(), to);
            let step = to.len() as int + 1;
            &&& r.len() == text.len() * step + to.len()
            &&& r[i * step + to.len()] == text[i]
            &&& r.subrange(i * step, i * step + to.len()) == to
            &&& r.subrange(text.len() * step, r.len() as int) == to
        }),
    decreases text.len(),
{
    let r = interleaved(text, to);
    let step = (to.len() + 1) as int;
    let rest = text.drop_first();
    let tail = interleaved(rest, to);
    assert(r == to + seq![text[0]] + tail);
    if rest.len() == 0 {
        assert(tail == to);
        assert(text.len() * step == step) by (nonlinear_arith)
            requires
                text.len() == 1,
        ;
        assert(r.subrange(0, to.len() as int) =~= to);
        assert(r.subrange(step, r.len() as int) =~= to);
        assert(i * step == 0) by (nonlinear_arith)
            requires
                i == 0,
        ;
    } else {
        let j = if i == 0 {
            0
        } else {
            i - 1
        };
        law_an_empty_text_stands_between_all_characters(rest, to, j);
        assert(text.len() * step == rest.len() * step + step) by (nonlinear_arith)
            requires
                text.len() == rest.len() + 1,
        ;
        assert(rest.len() * step >= 0) by (nonlinear_arith)
            requires
                rest.len() >= 0,
                step >= 0,
        ;
        assert(r.subrange(text.len() * step, r.len() as int) =~= tail.subrange(
            rest.len() * step,
            tail.len() as int,
        ));
        if i == 0 {
            assert(i * step == 0) by (nonlinear_arith)
                requires
                    i == 0,
            ;
            assert(r.subrange(0, to.len() as int) =~= to);
        } else {
            assert(i * step == j * step + step) by (nonlinear_arith)
                requires
                    i == j + 1,
            ;
            assert(0 <= j * step && j * step + step <= rest.len() * step) by (nonlinear_arith)
                requires
                    0 <= j,
                    j + 1 <= rest.len(),
                    step >= 1,
            ;
            assert(r[i * step + to.len()] == tail[j * step + to.len()]);
            assert(r.subrange(i * step, i * step + to.len()) =~= tail.subrange(
                j * step,
                j * step + to.len(),
            ));
        }
    }
}

/// A text that is replaced by itself stays as it is.
pub proof fn law_replacing_a_text_by_itself_changes_nothing(text: Seq<char>, from: Seq<char>)
    requires
        from.len() > 0,
    ensures
        replaced(text, from, from) == text,
    decreases text.len(),
{
    if text.len() >= from.len() {
        if occurs_at(text, from, 0) {
            law_replacing_a_text_by_itself_changes_nothing(text.skip(from.len() as int), from);
            assert(text =~= text.subrange(0, from.len() as int) + text.skip(from.len() as int));
        } else {
            law_replacing_a_text_by_itself_changes_nothing(text.drop_first(), from);
            assert(text =~= seq![text[0]] + text.drop_first());
        }
    }
}

// ---------------------------------------------------------------------------
// Case
// ---------------------------------------------------------------------------

/// Two texts are the same but for case where each pair of characters is the same, or one is an ASCII
/// letter in upper case and the other the same letter in lower case.
pub proof fn law_only_the_case_of_ascii_letters_is_ignored(a: Seq<char>, b: Seq<char>)
    ensures
        same_ignoring_case(a, b) <==> a.len() == b.len() && forall|i: int|
            0 <= i < a.len() ==> {
                let (x, y) = ((#[trigger] a[i]) as int, b[i] as int);
                x == y || (65 <= x <= 90 && y == x + 32) || (65 <= y <= 90 && x == y + 32)
            },
{
    assert forall|c: char| #![trigger ascii_lower(c)] true implies ascii_lower(c) as int == (if 65
        <= c as int <= 90 {
        c as int + 32
    } else {
        c as int
    }) by {}
    if same_ignoring_case(a, b) {
        assert forall|i: int| 0 <= i < a.len() implies {
            let (x, y) = ((#[trigger] a[i]) as int, b[i] as int);
            x == y || (65 <= x <= 90 && y == x + 32) || (65 <= y <= 90 && x == y + 32)
        } by {
            assert(ascii_lower(a[i]) == ascii_lower(b[i]));
        }
    }
    if a.len() == b.len() && forall|i: int|
        0 <= i < a.len() ==> {
            let (x, y) = ((#[trigger] a[i]) as int, b[i] as int);
            x == y || (65 <= x <= 90 && y == x + 32) || (65 <= y <= 90 && x == y + 32)
        } {
        assert forall|i: int| 0 <= i < a.len() implies ascii_lower(#[trigger] a[i]) == ascii_lower(
            b[i],
        ) by {
            assert(ascii_lower(a[i]) as int == ascii_lower(b[i]) as int);
        }
    }
}

// ---------------------------------------------------------------------------
// Bytes
// ---------------------------------------------------------------------------

/// Two texts in a row take the bytes of both.
pub proof fn law_bytes_of_texts_in_a_row(a: Seq<char>, b: Seq<char>)
    ensures
        byte_len(a + b) == byte_len(a) + byte_len(b),
        a.len() <= byte_len(a) <= 4 * a.len(),
        (forall|i: int| 0 <= i < a.len() ==> (#[trigger] a[i]) as int <= 127) ==> byte_len(a)
            == a.len(),
    decreases a.len(),
{
    if a.len() == 0 {
        assert(a + b =~= b);
    } else {
        assert((a + b).drop_first() =~= a.drop_first() + b);
        law_bytes_of_texts_in_a_row(a.drop_first(), b);
        if forall|i: int| 0 <= i < a.len() ==> (#[trigger] a[i]) as int <= 127 {
            assert forall|i: int| 0 <= i < a.drop_first().len() implies (#[trigger] a.drop_first()[i])
                as int <= 127 by {
                assert(a[i + 1] as int <= 127);
            }
            assert(a[0] as int <= 127);
        }
    }
}

/// A character begins at a byte exactly where the characters before it take that many bytes.
pub proof fn law_where_a_byte_falls(s: Seq<char>, offset: nat, i: nat)
    ensures
        char_at_byte(s, offset) == Some(i) <==> i <= s.len() && byte_len(s.take(i as int))
            == offset,
    decreases s.len(),
{
    if s.len() == 0 {
        if i <= s.len() {
            assert(s.take(i as int).len() == 0);
        }
    } else if i == 0 {
        assert(s.take(0).len() == 0);
    } else {
        let w = crate::text::char_width(s[0]);
        let rest = s.drop_first();
        if i <= s.len() {
            assert(s.take(i as int).drop_first() =~= rest.take(i - 1));
            assert(s.take(i as int)[0] == s[0]);
        }
        if offset >= w {
            law_where_a_byte_falls(rest, (offset - w) as nat, (i - 1) as nat);
        }
    }
}

/// A range of bytes is a text exactly where what comes before it takes as many bytes as it begins
/// at, and together with it as many as it ends at.
pub proof fn law_a_range_of_bytes(s: Seq<char>, from: nat, to: nat, x: Seq<char>)
    ensures
        byte_range(s, from, to) == Some(x) <==> exists|a: Seq<char>, b: Seq<char>|
            s == #[trigger] (a + x + b) && byte_len(a) == from && byte_len(a + x) == to,
{
    if byte_range(s, from, to) == Some(x) {
        let i = char_at_byte(s, from)->0;
        let j = char_at_byte(s, to)->0;
        crate::text::lemma_char_at_byte_order(s, from, to);
        law_where_a_byte_falls(s, from, i);
        law_where_a_byte_falls(s, to, j);
        let a = s.take(i as int);
        let b = s.skip(j as int);
        assert(s =~= a + x + b);
        assert(a + x =~= s.take(j as int));
    }
    if exists|a: Seq<char>, b: Seq<char>|
        s == #[trigger] (a + x + b) && byte_len(a) == from && byte_len(a + x) == to {
        let (a, b) = choose|a: Seq<char>, b: Seq<char>|
            s == #[trigger] (a + x + b) && byte_len(a) == from && byte_len(a + x) == to;
        assert(s.take(a.len() as int) =~= a);
        assert(s.take((a + x).len() as int) =~= a + x);
        law_where_a_byte_falls(s, from, a.len());
        law_where_a_byte_falls(s, to, (a + x).len());
        law_bytes_of_texts_in_a_row(a, x);
        assert(s.subrange(a.len() as int, (a + x).len() as int) =~= x);
    }
}

/// The byte at which a text first stands is the number of bytes before it.
pub proof fn law_the_byte_of_the_first_place(hay: Seq<char>, needle: Seq<char>)
    ensures
        byte_index_of(hay, needle) is Some <==> contains_text(hay, needle),
        byte_index_of(hay, needle) matches Some(n) ==> exists|a: Seq<char>, b: Seq<char>|
            hay == #[trigger] (a + needle + b) && byte_len(a) == n && forall|j: int|
                0 <= j < a.len() ==> !#[trigger] occurs_at(hay, needle, j),
{
    lemma_index_from(hay, needle, 0);
    if let Some(k) = index_of(hay, needle) {
        let a = hay.take(k);
        let b = hay.skip(k + needle.len());
        assert(hay =~= a + hay.subrange(k, k + needle.len()) + b);
        assert(hay == a + needle + b);
    }
}

/// The part of a text that fits into so many bytes is the longest that does.
pub proof fn law_the_longest_fitting_part(s: Seq<char>, limit: nat, n: int)
    requires
        0 <= n <= s.len(),
    ensures
        fitting(s, limit) <= s.len(),
        byte_len(s.take(n)) <= limit <==> n <= fitting(s, limit),
{
    lemma_fitting(s, limit);
    let k = fitting(s, limit) as int;
    if n <= k {
        assert(s.take(k) =~= s.take(n) + s.subrange(n, k));
        law_bytes_of_texts_in_a_row(s.take(n), s.subrange(n, k));
    }
}

} // verus!
