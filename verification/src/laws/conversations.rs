//! What a conversation is called, where it belongs, and how it is listed.

use crate::json::{lemma_member, lemma_no_member, member, object_tree, JsonTree};
use crate::laws::text::{
    is_free_of, law_only_blank_text_is_trimmed_away, law_only_the_case_of_ascii_letters_is_ignored,
    law_the_last_piece_stands_behind_the_last_separator, lemma_dropped, lemma_trimmed_range,
};
use crate::session::list::{listed_fields, listed_views, shown_rows, ListRow, ListedSession};
use crate::session::stored::StoredSession;
use crate::session::titles::{display_title, is_claw, neutral_body, nonempty, plain_cwd};
use crate::text::{is_space, last_piece, replaced, trimmed, CharSet};
use vstd::prelude::*;

verus! {

broadcast use vstd::string::group_string_axioms;

// ---------------------------------------------------------------------------
// Names and directories
// ---------------------------------------------------------------------------

/// Some character of the text is no white space.
pub open spec fn is_visible(s: Seq<char>) -> bool {
    exists|i: int| 0 <= i < s.len() && !is_space(#[trigger] s[i])
}

/// A conversation is shown under the name that the user gave it, where that is visible, else under
/// its title, where that is; both without the white space around them. Without either it is shown as
/// one without a title.
pub proof fn law_which_name_is_shown(title: Option<Seq<char>>, custom_title: Option<Seq<char>>)
    ensures
        ({
            let shown = display_title(title, custom_title);
            let named = custom_title is Some && is_visible(custom_title->0);
            let titled = title is Some && is_visible(title->0);
            &&& named ==> shown == trimmed(custom_title->0)
            &&& !named && titled ==> shown == trimmed(title->0)
            &&& !named && !titled ==> shown == "(无标题)"@
            &&& nonempty(custom_title) is Some <==> named
            &&& named ==> nonempty(custom_title) == Some(trimmed(custom_title->0))
        }),
{
    if let Some(t) = title {
        law_only_blank_text_is_trimmed_away(t);
    }
    if let Some(t) = custom_title {
        law_only_blank_text_is_trimmed_away(t);
    }
}

/// A directory is compared without the white space around it, and then without the separators at its
/// end; nothing else is taken off.
pub proof fn law_how_a_directory_is_compared(cwd: Seq<char>)
    ensures
        exists|lo: int, hi: int, mid: int|
            #![trigger cwd.subrange(lo, hi), cwd.subrange(hi, mid)]
            0 <= lo <= hi <= mid <= cwd.len() && plain_cwd(cwd) == cwd.subrange(lo, hi) && (forall|
                i: int,
            |
                0 <= i < lo || mid <= i < cwd.len() ==> is_space(#[trigger] cwd[i])) && (forall|
                i: int,
            |
                hi <= i < mid ==> #[trigger] cwd[i] == '/' || cwd[i] == '\\') && (lo < mid
                ==> !is_space(cwd[lo]) && !is_space(cwd[mid - 1])) && (lo < hi ==> cwd[hi - 1] != '/'
                && cwd[hi - 1] != '\\'),
{
    let (lo, mid) = lemma_trimmed_range(cwd);
    let t = trimmed(cwd);
    let n = lemma_dropped(t, CharSet::Slashes);
    let hi = lo + n;
    assert(t.take(n) =~= cwd.subrange(lo, hi));
    assert forall|i: int| hi <= i < mid implies #[trigger] cwd[i] == '/' || cwd[i] == '\\' by {
        assert(CharSet::Slashes.has(t[i - lo]));
    }
    if n > 0 {
        assert(!CharSet::Slashes.has(t[n - 1]));
        assert(t[n - 1] == cwd[hi - 1]);
    }
    assert(plain_cwd(cwd) == cwd.subrange(lo, hi));
    let rest = cwd.subrange(hi, mid);
}

/// The four letters of the name of a channel's directory, in any case.
pub open spec fn is_channel_name(s: Seq<char>) -> bool {
    &&& s.len() == 4
    &&& s[0] == 'c' || s[0] == 'C'
    &&& s[1] == 'l' || s[1] == 'L'
    &&& s[2] == 'a' || s[2] == 'A'
    &&& s[3] == 'w' || s[3] == 'W'
}

/// A directory belongs to a channel where all of it, as it is compared, or what stands behind its
/// last separator, is that name; no other directory does.
pub proof fn law_which_directories_belong_to_a_channel(cwd: Seq<char>)
    ensures
        is_claw(cwd) <==> is_channel_name(plain_cwd(cwd)) || exists|
            head: Seq<char>,
            separator: char,
            name: Seq<char>,
        |
            (separator == '/' || separator == '\\') && is_channel_name(name) && plain_cwd(cwd)
                == #[trigger] (head + seq![separator] + name),
{
    let p = plain_cwd(cwd);
    let last = last_piece(p, CharSet::Slashes);
    reveal_strlit("claw");
    law_only_the_case_of_ascii_letters_is_ignored(last, "claw"@);
    assert(is_claw(cwd) == is_channel_name(last)) by {
        assert("claw"@.len() == 4);
        assert("claw"@[0] == 'c' && "claw"@[1] == 'l' && "claw"@[2] == 'a' && "claw"@[3] == 'w');
        if is_claw(cwd) {
            assert(last.len() == 4);
            assert(last[0] as int == 'c' as int || last[0] as int == 'C' as int);
            assert(last[1] as int == 'l' as int || last[1] as int == 'L' as int);
            assert(last[2] as int == 'a' as int || last[2] as int == 'A' as int);
            assert(last[3] as int == 'w' as int || last[3] as int == 'W' as int);
        }
        if is_channel_name(last) {
            assert forall|i: int| 0 <= i < last.len() implies {
                let (x, y) = ((#[trigger] last[i]) as int, "claw"@[i] as int);
                x == y || (65 <= x <= 90 && y == x + 32) || (65 <= y <= 90 && x == y + 32)
            } by {
                if i == 0 {
                } else if i == 1 {
                } else if i == 2 {
                } else {
                    assert(i == 3);
                }
            }
        }
    }
    lemma_last_piece(p);
    if exists|head: Seq<char>, separator: char, name: Seq<char>|
        (separator == '/' || separator == '\\') && is_channel_name(name) && p == #[trigger] (head
            + seq![separator] + name) {
        let (head, separator, name) = choose|head: Seq<char>, separator: char, name: Seq<char>|
            (separator == '/' || separator == '\\') && is_channel_name(name) && p == #[trigger] (
            head + seq![separator] + name);
        assert(is_free_of(name, CharSet::Slashes));
        law_the_last_piece_stands_behind_the_last_separator(
            head,
            separator,
            name,
            CharSet::Slashes,
        );
    }
    if is_channel_name(p) {
        assert(is_free_of(p, CharSet::Slashes));
        law_the_last_piece_stands_behind_the_last_separator(p, '/', p, CharSet::Slashes);
    }
    if is_claw(cwd) && !is_channel_name(p) {
        let n = p.len() - last.len();
        let head = p.take(n - 1);
        assert(p =~= head + seq![p[n - 1]] + last);
    }
}

/// The last piece is what stands at the end.
proof fn lemma_last_piece(p: Seq<char>)
    ensures
        ({
            let last = last_piece(p, CharSet::Slashes);
            let n = p.len() - last.len();
            &&& n >= 0
            &&& last == p.skip(n)
            &&& n > 0 ==> p[n - 1] == '/' || p[n - 1] == '\\'
            &&& n == 0 ==> last == p
        }),
    decreases p.len(),
{
    if p.len() == 0 || CharSet::Slashes.has(p.last()) {
        assert(p.skip(p.len() as int) =~= Seq::empty());
        if p.len() == 0 {
            assert(p =~= Seq::empty());
        }
    } else {
        let short = p.drop_last();
        lemma_last_piece(short);
        let last = last_piece(p, CharSet::Slashes);
        let n = p.len() - last.len();
        assert(last =~= p.skip(n));
        assert(p.skip(0) =~= p);
    }
}

/// A body is compared with each mention of the conversation's own id made neutral, and is otherwise
/// compared whole: no part of it is left out.
pub proof fn law_bodies_are_compared_whole(text: Seq<char>, id: Seq<char>)
    ensures
        neutral_body(text, id) == replaced(text, id, "\u{0}WB_SWITCH_NEUTRAL_ID\u{0}"@),
{
}

// ---------------------------------------------------------------------------
// The list
// ---------------------------------------------------------------------------

/// The directory of a row; a row without one stands in none.
pub open spec fn directory(s: StoredSession) -> Seq<char> {
    match s.cwd {
        Some(cwd) => cwd@,
        None => Seq::empty(),
    }
}

/// The row `row` is shown as `shown`.
pub open spec fn is_shown_as(row: ListRow, shown: ListedSession) -> bool {
    let s = row.session;
    &&& s.id matches Some(id) ==> shown.id@ == id@
    &&& s.id is None ==> shown.id@.len() == 0
    &&& shown.cwd@ == directory(s)
    &&& s.custom_title matches Some(name) ==> (is_visible(name@) ==> shown.title@ == trimmed(name@))
    &&& !(s.custom_title matches Some(name) && is_visible(name@)) ==> match s.title {
        Some(title) => shown.title@ == if is_visible(title@) {
            trimmed(title@)
        } else {
            "(无标题)"@
        },
        None => shown.title@ == "(无标题)"@,
    }
    &&& s.updated_at matches Some(at) ==> shown.updated_at == at
    &&& s.updated_at is None ==> shown.updated_at == 0
    &&& shown.has_history == row.has_history
    &&& row.is_playground matches Some(n) ==> shown.is_playground == (n != 0)
    &&& row.is_playground is None ==> !shown.is_playground
}

/// The rows that belong to no channel, in order.
pub open spec fn is_listing(rows: Seq<ListRow>, places: Seq<int>) -> bool {
    &&& forall|p: int|
        0 <= p < places.len() ==> 0 <= #[trigger] places[p] < rows.len() && !is_claw(
            directory(rows[places[p]].session),
        )
    &&& forall|p: int, q: int|
        0 <= p < q < places.len() ==> #[trigger] places[p] < #[trigger] places[q]
    &&& forall|i: int|
        0 <= i < rows.len() && !is_claw(directory((#[trigger] rows[i]).session)) ==> places.contains(
            i,
        )
}

/// The places of the rows that are shown.
proof fn lemma_listing(rows: Seq<ListRow>) -> (places: Seq<int>)
    ensures
        is_listing(rows, places),
        places.len() == shown_rows(rows).len(),
        forall|p: int|
            0 <= p < places.len() ==> #[trigger] shown_rows(rows)[p]
                == crate::session::list::shown_row(rows[places[p]]),
    decreases rows.len(),
{
    if rows.len() == 0 {
        Seq::empty()
    } else {
        let short = rows.drop_last();
        let n = rows.len() - 1;
        let before = lemma_listing(short);
        let places = if is_claw(directory(rows[n].session)) {
            before
        } else {
            before.push(n)
        };
        assert(rows[n].session@.cwd == directory(rows[n].session));
        assert forall|p: int| 0 <= p < places.len() implies 0 <= #[trigger] places[p] < rows.len()
            && !is_claw(directory(rows[places[p]].session)) by {
            if p < before.len() {
                assert(places[p] == before[p]);
                assert(rows[before[p]] == short[before[p]]);
            }
        }
        assert forall|p: int| 0 <= p < places.len() implies #[trigger] shown_rows(rows)[p]
            == crate::session::list::shown_row(rows[places[p]]) by {
            if p < before.len() {
                assert(places[p] == before[p]);
                assert(rows[before[p]] == short[before[p]]);
                assert(shown_rows(rows)[p] == shown_rows(short)[p]);
            }
        }
        assert forall|p: int, q: int| 0 <= p < q < places.len() implies #[trigger] places[p]
            < #[trigger] places[q] by {
            assert(places[p] == before[p]);
            if q < before.len() {
                assert(places[q] == before[q]);
            }
        }
        assert forall|i: int|
            0 <= i < rows.len() && !is_claw(directory((#[trigger] rows[i]).session)) implies places.contains(
        i) by {
            if i < n {
                assert(short[i] == rows[i]);
                assert(before.contains(i));
                let at = choose|at: int| 0 <= at < before.len() && before[at] == i;
                assert(places[at] == i);
            } else {
                assert(places[before.len() as int] == i);
            }
        }
        places
    }
}

/// Every conversation that belongs to no channel is listed, once and in the order of the rows,
/// whether or not it has a body; none of a channel is. Each is shown with its own id, directory,
/// time and marks, and under the name that it goes by.
pub proof fn law_which_conversations_are_listed(rows: Seq<ListRow>, list: Seq<ListedSession>)
    requires
        listed_views(list) == shown_rows(rows),
    ensures
        exists|places: Seq<int>| #[trigger]
            is_listing(rows, places) && places.len() == list.len() && forall|p: int|
                0 <= p < list.len() ==> is_shown_as(rows[places[p]], #[trigger] list[p]),
        list.len() == rows.filter(|row: ListRow| !is_claw(directory(row.session))).len(),
        forall|i: int|
            0 <= i < rows.len() && !is_claw(directory((#[trigger] rows[i]).session)) ==> exists|p: int|
                0 <= p < list.len() && is_shown_as(rows[i], #[trigger] list[p]),
{
    let places = lemma_listing(rows);
    assert(listed_views(list).len() == list.len());
    assert forall|p: int| 0 <= p < list.len() implies is_shown_as(
        rows[places[p]],
        #[trigger] list[p],
    ) by {
        let row = rows[places[p]];
        assert(listed_views(list)[p] == list[p]@);
        assert(shown_rows(rows)[p] == crate::session::list::shown_row(row));
        law_which_name_is_shown(row.session@.title, row.session@.custom_title);
    }
    assert(is_listing(rows, places));
    assert forall|i: int|
        0 <= i < rows.len() && !is_claw(
            directory((#[trigger] rows[i]).session),
        ) implies exists|p: int|
        0 <= p < list.len() && is_shown_as(rows[i], #[trigger] list[p]) by {
        assert(places.contains(i));
        let p = choose|p: int| 0 <= p < places.len() && places[p] == i;
        assert(is_shown_as(rows[i], list[p]));
    }
    lemma_listing_len(rows);
}

proof fn lemma_listing_len(rows: Seq<ListRow>)
    ensures
        shown_rows(rows).len() == rows.filter(
            |row: ListRow| !is_claw(directory(row.session)),
        ).len(),
    decreases rows.len(),
{
    reveal(Seq::filter);
    if rows.len() > 0 {
        lemma_listing_len(rows.drop_last());
        assert(rows.last().session@.cwd == directory(rows.last().session));
    }
}

/// What is sent out of a conversation that is shown holds each of its fields under its name, and
/// nothing else.
pub proof fn law_a_listed_conversation_is_sent_whole(s: ListedSession)
    ensures
        ({
            let sent = object_tree(listed_fields(s));
            &&& member(sent, "id"@) == Some(JsonTree::Text(s.id@))
            &&& member(sent, "title"@) == Some(JsonTree::Text(s.title@))
            &&& member(sent, "cwd"@) == Some(JsonTree::Text(s.cwd@))
            &&& member(sent, "updatedAt"@) == Some(JsonTree::Number(Some(s.updated_at)))
            &&& member(sent, "hasHistory"@) == Some(JsonTree::Bool(s.has_history))
            &&& member(sent, "isPlayground"@) == Some(JsonTree::Bool(s.is_playground))
            &&& forall|key: Seq<char>|
                #[trigger] member(sent, key) is Some ==> key == "id"@ || key == "title"@ || key
                    == "cwd"@ || key == "updatedAt"@ || key == "hasHistory"@ || key
                    == "isPlayground"@
        }),
{
    reveal_strlit("id");
    reveal_strlit("title");
    reveal_strlit("cwd");
    reveal_strlit("updatedAt");
    reveal_strlit("hasHistory");
    reveal_strlit("isPlayground");
    assert("id"@.len() == 2 && "title"@.len() == 5 && "cwd"@.len() == 3);
    assert("updatedAt"@.len() == 9 && "hasHistory"@.len() == 10 && "isPlayground"@.len() == 12);
    lemma_member(listed_fields(s), 0);
    lemma_member(listed_fields(s), 1);
    lemma_member(listed_fields(s), 2);
    lemma_member(listed_fields(s), 3);
    lemma_member(listed_fields(s), 4);
    lemma_member(listed_fields(s), 5);
    assert forall|key: Seq<char>| #[trigger]
        member(object_tree(listed_fields(s)), key) is Some implies key == "id"@ || key == "title"@
        || key == "cwd"@ || key == "updatedAt"@ || key == "hasHistory"@ || key == "isPlayground"@ by {
        if key != "id"@ && key != "title"@ && key != "cwd"@ && key != "updatedAt"@ && key
            != "hasHistory"@ && key != "isPlayground"@ {
            lemma_no_member(listed_fields(s), key);
        }
    }
}

} // verus!
