//! Which conversations are hidden when an account is tidied up, and which stay.

use crate::json::{count_tree, lemma_member, lemma_no_member, member, object_tree, JsonTree};
use crate::laws::conversations::{directory, is_visible, law_which_name_is_shown};
use crate::session::stored::{stored_views, Body, StoredSession};
use crate::session::tidy::{
    goes_first, is_redundant, is_removal_order, is_run_for, is_tidied, keys_of,
    law_one_of_each_group_stays, leader, newer, refusal_text, report_fields, run_over, same_group,
    times_of, GroupKey, ReportView, TidyError, TidyKind, TidyReport, TidyRun,
};
use crate::session::titles::{is_claw, neutral_body, plain_cwd};
use crate::text::{trimmed, views};
use vstd::prelude::*;

verus! {

broadcast use vstd::string::group_string_axioms;

/// The id of a row; a row without one has the empty one.
pub open spec fn id_of(s: StoredSession) -> Seq<char> {
    match s.id {
        Some(id) => id@,
        None => Seq::empty(),
    }
}

/// When a row was changed; one that does not tell was changed at the start of all times.
pub open spec fn time_of(s: StoredSession) -> int {
    match s.updated_at {
        Some(at) => at as int,
        None => 0,
    }
}

/// The name under which a row is shown.
pub open spec fn name_of(s: StoredSession) -> Seq<char> {
    if s.custom_title is Some && is_visible(s.custom_title->0@) {
        trimmed(s.custom_title->0@)
    } else if s.title is Some && is_visible(s.title->0@) {
        trimmed(s.title->0@)
    } else {
        "(无标题)"@
    }
}

/// The two rows stand in one directory, which belongs to no channel.
pub open spec fn share_directory(a: StoredSession, b: StoredSession) -> bool {
    &&& !is_claw(directory(a))
    &&& !is_claw(directory(b))
    &&& plain_cwd(directory(a)) == plain_cwd(directory(b))
}

/// The two rows have readable bodies that are the same from end to end, once each one's own id is
/// made neutral.
pub open spec fn share_body(a: StoredSession, b: StoredSession) -> bool {
    match (a.body, b.body) {
        (Body::Text(x), Body::Text(y)) => neutral_body(x@, id_of(a)) == neutral_body(y@, id_of(b)),
        _ => false,
    }
}

/// What makes one row take the place of another.
pub open spec fn are_alike(kind: TidyKind, a: StoredSession, b: StoredSession) -> bool {
    share_directory(a, b) && match kind {
        TidyKind::ClearDuplicates => share_body(a, b),
        TidyKind::Fold => name_of(a) == name_of(b),
    }
}

proof fn lemma_alike(kind: TidyKind, rows: Seq<StoredSession>, i: int, j: int)
    requires
        0 <= i < rows.len(),
        0 <= j < rows.len(),
    ensures
        same_group(keys_of(kind, stored_views(rows)), i, j) == are_alike(kind, rows[i], rows[j]),
        times_of(stored_views(rows))[i] == time_of(rows[i]),
        stored_views(rows)[i].id == id_of(rows[i]),
{
    let all = stored_views(rows);
    assert(all[i] == rows[i]@ && all[j] == rows[j]@);
    law_which_name_is_shown(all[i].title, all[i].custom_title);
    law_which_name_is_shown(all[j].title, all[j].custom_title);
    assert(keys_of(kind, all)[i] == match kind {
        TidyKind::ClearDuplicates => crate::session::tidy::duplicate_key(all[i]),
        TidyKind::Fold => crate::session::tidy::fold_key(all[i]),
    });
    assert(keys_of(kind, all)[j] == match kind {
        TidyKind::ClearDuplicates => crate::session::tidy::duplicate_key(all[j]),
        TidyKind::Fold => crate::session::tidy::fold_key(all[j]),
    });
    assert(all[i].cwd == directory(rows[i]) && all[j].cwd == directory(rows[j]));
    assert(crate::session::stored::shown_title(all[i]) == name_of(rows[i]));
    assert(crate::session::stored::shown_title(all[j]) == name_of(rows[j]));
}

/// `gone` are the places of the rows that the run hides, in its order.
pub open spec fn hides(run: TidyRun, rows: Seq<StoredSession>, gone: Seq<int>) -> bool {
    &&& run.removals@.len() == gone.len()
    &&& forall|p: int|
        0 <= p < gone.len() ==> 0 <= #[trigger] gone[p] < rows.len() && run.removals@[p].id@ == id_of(
            rows[gone[p]],
        )
    &&& gone.no_duplicates()
}

/// Another row that is like `i` takes its place: one that was changed later, or at the same time and
/// comes first.
pub open spec fn is_replaced_by(
    kind: TidyKind,
    rows: Seq<StoredSession>,
    i: int,
    k: int,
) -> bool {
    &&& 0 <= k < rows.len()
    &&& are_alike(kind, rows[i], rows[k])
    &&& time_of(rows[k]) > time_of(rows[i]) || (time_of(rows[k]) == time_of(rows[i]) && k < i)
}

/// The run hides exactly the conversations that another one like them takes the place of.
pub open spec fn is_tidying(kind: TidyKind, rows: Seq<StoredSession>, run: TidyRun) -> bool {
    &&& run.done == 0
    &&& run.failure is None
    &&& forall|p: int|
        0 <= p < run.removals@.len() ==> (#[trigger] run.removals@[p]).delete_body == (kind
            is ClearDuplicates)
    &&& exists|gone: Seq<int>| #[trigger]
        hides(run, rows, gone) && forall|i: int|
            0 <= i < rows.len() ==> (#[trigger] gone.contains(i) <==> exists|k: int|
                is_replaced_by(kind, rows, i, k))
}

/// A conversation is hidden exactly where another one like it takes its place: for clearing
/// duplicates one in the same directory with the same whole body, for folding one in the same
/// directory with the same name; one that was changed later, or at the same time and comes first.
/// Bodies are deleted where duplicates are cleared, and only there. Nothing is hidden yet.
pub proof fn law_what_tidying_hides(kind: TidyKind, rows: Seq<StoredSession>, run: TidyRun)
    requires
        is_run_for(kind, stored_views(rows), run@),
    ensures
        is_tidying(kind, rows, run),
{
    let all = stored_views(rows);
    let keys = keys_of(kind, all);
    let times = times_of(all);
    let order = choose|order: Seq<int>| #[trigger]
        is_removal_order(keys, times, order) && run@ == run_over(kind, all, order);
    assert(run@.removals.len() == run.removals@.len());
    assert forall|p: int| 0 <= p < run.removals@.len() implies (#[trigger] run.removals@[p]).delete_body
        == (kind is ClearDuplicates) by {
        assert(run@.removals[p] == run_over(kind, all, order).removals[p]);
    }
    assert(hides(run, rows, order)) by {
        assert forall|p: int| 0 <= p < order.len() implies 0 <= #[trigger] order[p] < rows.len()
            && run.removals@[p].id@ == id_of(rows[order[p]]) by {
            assert(run@.removals[p] == run_over(kind, all, order).removals[p]);
            lemma_alike(kind, rows, order[p], order[p]);
        }
        assert forall|p: int, q: int| 0 <= p < order.len() && 0 <= q < order.len() && p
            != q implies order[p] != order[q] by {
            if p < q {
                assert(goes_first(keys, times, order[p], order[q]));
            } else {
                assert(goes_first(keys, times, order[q], order[p]));
            }
        }
    }
    assert forall|i: int| 0 <= i < rows.len() implies (#[trigger] order.contains(i) <==> exists|
        k: int,
    |
        is_replaced_by(kind, rows, i, k)) by {
        lemma_replaced(kind, rows, i);
        if order.contains(i) {
            let p = choose|p: int| 0 <= p < order.len() && order[p] == i;
            assert(is_redundant(keys, times, order[p]));
        }
    }
}

/// A row is redundant where another takes its place.
proof fn lemma_replaced(kind: TidyKind, rows: Seq<StoredSession>, i: int)
    requires
        0 <= i < rows.len(),
    ensures
        ({
            let all = stored_views(rows);
            is_redundant(keys_of(kind, all), times_of(all), i) <==> exists|k: int|
                is_replaced_by(kind, rows, i, k)
        }),
{
    let all = stored_views(rows);
    let keys = keys_of(kind, all);
    let times = times_of(all);
    if is_redundant(keys, times, i) {
        let k = choose|k: int|
            0 <= k < keys.len() && #[trigger] same_group(keys, i, k) && newer(times, k, i);
        lemma_alike(kind, rows, i, k);
        lemma_alike(kind, rows, k, i);
        assert(is_replaced_by(kind, rows, i, k));
    }
    if exists|k: int| is_replaced_by(kind, rows, i, k) {
        let k = choose|k: int| is_replaced_by(kind, rows, i, k);
        lemma_alike(kind, rows, i, k);
        lemma_alike(kind, rows, k, i);
        assert(same_group(keys, i, k) && newer(times, k, i));
    }
}

/// For each conversation that clearing duplicates hides one stays in the same directory whose body
/// is the same from end to end, once each one's own id is made neutral; it was changed no earlier.
/// Folding leaves one of the same name in the same directory.
pub proof fn law_one_that_is_alike_stays(
    kind: TidyKind,
    rows: Seq<StoredSession>,
    run: TidyRun,
    p: int,
)
    requires
        is_run_for(kind, stored_views(rows), run@),
        0 <= p < run.removals@.len(),
    ensures
        exists|gone: Seq<int>, k: int|
            #![trigger hides(run, rows, gone), rows[k]]
            hides(run, rows, gone) && 0 <= k < rows.len() && !gone.contains(k) && share_directory(
                rows[gone[p]],
                rows[k],
            ) && time_of(rows[k]) >= time_of(rows[gone[p]]) && (kind is ClearDuplicates
                ==> share_body(rows[gone[p]], rows[k])) && (kind is Fold ==> name_of(rows[k])
                == name_of(rows[gone[p]])),
{
    let all = stored_views(rows);
    let keys = keys_of(kind, all);
    let times = times_of(all);
    law_what_tidying_hides(kind, rows, run);
    let gone = choose|gone: Seq<int>| #[trigger]
        hides(run, rows, gone) && forall|i: int|
            0 <= i < rows.len() ==> (#[trigger] gone.contains(i) <==> exists|k: int|
                is_replaced_by(kind, rows, i, k));
    let i = gone[p];
    assert(gone.contains(i));
    lemma_replaced(kind, rows, i);
    assert(is_redundant(keys, times, i));
    law_one_of_each_group_stays(keys, times, i);
    let k = choose|k: int|
        0 <= k < keys.len() && #[trigger] same_group(keys, i, k) && !is_redundant(keys, times, k) && (
        k == i || newer(times, k, i));
    lemma_alike(kind, rows, i, k);
    lemma_alike(kind, rows, k, i);
    lemma_replaced(kind, rows, k);
    assert(!gone.contains(k));
    assert(are_alike(kind, rows[i], rows[k]));
    assert(rows[k] == rows[k]);
}

/// Of two conversations that are alike one at least is hidden; one of a channel never is, and where
/// duplicates are cleared none without a readable body.
pub proof fn law_none_is_left_twice(
    kind: TidyKind,
    rows: Seq<StoredSession>,
    run: TidyRun,
    i: int,
    j: int,
)
    requires
        is_run_for(kind, stored_views(rows), run@),
        0 <= i < rows.len(),
        0 <= j < rows.len(),
        i != j,
    ensures
        exists|gone: Seq<int>| #[trigger]
            hides(run, rows, gone) && (are_alike(kind, rows[i], rows[j]) ==> gone.contains(i)
                || gone.contains(j)) && (is_claw(directory(rows[i])) ==> !gone.contains(i)) && (kind
                is ClearDuplicates && !(rows[i].body is Text) ==> !gone.contains(i)),
{
    law_what_tidying_hides(kind, rows, run);
    let gone = choose|gone: Seq<int>| #[trigger]
        hides(run, rows, gone) && forall|i: int|
            0 <= i < rows.len() ==> (#[trigger] gone.contains(i) <==> exists|k: int|
                is_replaced_by(kind, rows, i, k));
    if are_alike(kind, rows[i], rows[j]) {
        if is_replaced_by(kind, rows, i, j) {
            assert(gone.contains(i));
        } else {
            assert(is_replaced_by(kind, rows, j, i));
            assert(gone.contains(j));
        }
    }
    assert(gone.contains(i) ==> exists|k: int| is_replaced_by(kind, rows, i, k));
}

/// Conversations are hidden group by group, in the order in which the groups begin among the rows,
/// and within a group the one that was changed last first.
pub proof fn law_the_order_of_hiding(
    keys: Seq<GroupKey>,
    times: Seq<int>,
    order: Seq<int>,
    p: int,
    q: int,
)
    requires
        is_removal_order(keys, times, order),
        keys.len() == times.len(),
        0 <= p < q < order.len(),
    ensures
        ({
            let (i, j) = (order[p], order[q]);
            if keys[i] == keys[j] {
                times[i] > times[j] || (times[i] == times[j] && i < j)
            } else {
                exists|m: int|
                    0 <= m < keys.len() && #[trigger] keys[m] == keys[i] && forall|n: int|
                        0 <= n < keys.len() && #[trigger] keys[n] == keys[j] ==> m < n
            }
        }),
{
    let (i, j) = (order[p], order[q]);
    assert(goes_first(keys, times, i, j));
    lemma_leads(keys, i, 0);
    lemma_leads(keys, j, 0);
    if keys[i] == keys[j] {
        if leader(keys, i) < leader(keys, j) {
            assert(keys[leader(keys, i)] != keys[j]);
        }
    } else {
        let m = leader(keys, i);
        assert(m < leader(keys, j)) by {
            assert(m != leader(keys, j));
        }
        assert forall|n: int| 0 <= n < keys.len() && #[trigger] keys[n] == keys[j] implies m < n by {}
        assert(keys[m] == keys[i]);
    }
}

proof fn lemma_leads(keys: Seq<GroupKey>, i: int, k: int)
    requires
        0 <= k <= i < keys.len(),
    ensures
        ({
            let m = crate::session::tidy::first_from(keys, i, k);
            &&& k <= m <= i
            &&& keys[m] == keys[i]
            &&& forall|n: int| k <= n < m ==> #[trigger] keys[n] != keys[i]
        }),
    decreases i - k,
{
    if k < i && keys[k] != keys[i] {
        lemma_leads(keys, i, k + 1);
    }
}

/// A report tells how many conversations were hidden, which ones, in the order in which they were to
/// be hidden, and why it was given up, where it was.
pub proof fn law_a_report_lists_what_was_hidden(run: TidyRun, r: TidyReport)
    requires
        run@.valid(),
        r@ == (ReportView {
            reason: run@.failure,
            removed: run@.done,
            removed_ids: run@.hidden_ids(),
        }),
    ensures
        r.removed == run.done,
        r.removed_ids@.len() == run.done <= run.removals@.len(),
        forall|i: int|
            0 <= i < run.done ==> (#[trigger] r.removed_ids@[i])@ == run.removals@[i].id@,
        r.reason is Some == run.failure is Some,
        r.reason matches Some(reason) ==> reason@ == run.failure->0@,
{
    assert(views(r.removed_ids@).len() == run.done);
    assert forall|i: int| 0 <= i < run.done implies (#[trigger] r.removed_ids@[i])@
        == run.removals@[i].id@ by {
        assert(views(r.removed_ids@)[i] == run@.hidden_ids()[i]);
        assert(run@.removals[i].0 == run.removals@[i].id@);
    }
}

/// What is said where a conversation could not be hidden begins with what went wrong and ends with
/// the error as it came.
pub proof fn law_a_refusal_quotes_the_error(error: Seq<char>)
    ensures
        ({
            let said = refusal_text(error);
            let n = said.len() - error.len();
            &&& n > 0
            &&& said.take(n) == "写入 workbuddy.db 失败（请关闭 WorkBuddy 后重试）："@
            &&& said.skip(n) == error
        }),
{
    let head = "写入 workbuddy.db 失败（请关闭 WorkBuddy 后重试）："@;
    reveal_strlit("写入 workbuddy.db 失败（请关闭 WorkBuddy 后重试）：");
    let said = refusal_text(error);
    assert(said.take(head.len() as int) =~= head);
    assert(said.skip(head.len() as int) =~= error);
}

/// Where the conversations could not be read nothing is hidden, and the report says why.
pub proof fn law_unread_conversations_are_reported(
    kind: TidyKind,
    e: TidyError,
    r: Result<TidyRun, TidyReport>,
)
    requires
        is_tidied(kind, Err(e), r),
    ensures
        r is Err,
        r->Err_0.removed == 0,
        r->Err_0.removed_ids@.len() == 0,
        r->Err_0.reason is Some,
        e is NoDatabase ==> r->Err_0.reason->0@ == "workbuddy.db 不存在"@,
        e is CannotOpen ==> r->Err_0.reason->0@ == "无法打开 workbuddy.db"@,
        e is NoTable ==> r->Err_0.reason->0@ == "sessions 表不存在"@,
        e is QueryFailed ==> r->Err_0.reason->0@ == "查询会话失败"@,
{
    let report = r->Err_0;
    assert(report@.removed_ids.len() == report.removed_ids@.len());
}

/// What is sent out of a report tells whether all went well, how many conversations were hidden, and
/// either which ones or why it was given up.
pub proof fn law_a_tidy_report_is_sent_whole(r: TidyReport)
    ensures
        ({
            let sent = object_tree(report_fields(r));
            &&& member(sent, "ok"@) == Some(JsonTree::Bool(r.reason is None))
            &&& member(sent, "removed"@) == Some(count_tree(r.removed))
            &&& member(sent, "reason"@) == match r.reason {
                Some(reason) => Some(JsonTree::Text(reason@)),
                None => None,
            }
            &&& r.reason is Some ==> member(sent, "removedIds"@) is None
            &&& r.reason is None ==> (member(sent, "removedIds"@) matches Some(
                JsonTree::Array(list),
            ) && list.len() == r.removed_ids@.len() && forall|i: int|
                0 <= i < list.len() ==> #[trigger] list[i] == JsonTree::Text(r.removed_ids@[i]@))
            &&& forall|key: Seq<char>|
                #[trigger] member(sent, key) is Some ==> key == "ok"@ || key == "removed"@ || key
                    == "reason"@ || key == "removedIds"@
        }),
{
    let fields = report_fields(r);
    let sent = object_tree(fields);
    reveal_strlit("ok");
    reveal_strlit("reason");
    reveal_strlit("removed");
    reveal_strlit("removedIds");
    assert("ok"@.len() == 2 && "reason"@.len() == 6 && "removed"@.len() == 7 && "removedIds"@.len()
        == 10);
    lemma_member(fields, 0);
    lemma_member(fields, 1);
    lemma_member(fields, 2);
    if r.reason is None {
        lemma_no_member(fields, "reason"@);
        let list = Seq::new(
            views(r.removed_ids@).len(),
            |i: int| JsonTree::Text(views(r.removed_ids@)[i]),
        );
        assert(member(sent, "removedIds"@) == Some(JsonTree::Array(list)));
    } else {
        lemma_no_member(fields, "removedIds"@);
    }
    assert forall|key: Seq<char>| #[trigger] member(sent, key) is Some implies key == "ok"@ || key
        == "removed"@ || key == "reason"@ || key == "removedIds"@ by {
        if key != "ok"@ && key != "removed"@ && key != "reason"@ && key != "removedIds"@ {
            lemma_no_member(fields, key);
        }
    }
}

} // verus!
