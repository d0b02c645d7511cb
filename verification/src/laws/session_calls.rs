//! What the functions on conversations give back.

use crate::json::{json_tree, member, JsonTree};
use crate::laws::conversations::{
    directory, is_channel_name, is_shown_as, is_visible, law_a_listed_conversation_is_sent_whole,
    law_which_conversations_are_listed, law_which_directories_belong_to_a_channel,
    law_which_name_is_shown,
};
use crate::laws::copying::{
    is_first_namesake, is_outcome, is_report_of, is_the_same, law_a_copy_report_is_sent_whole,
    law_a_switch_report_is_sent_whole, law_results_are_collected, law_what_a_copied_row_holds,
    law_what_becomes_of_a_copy, law_what_is_reported_of_a_copy, law_which_account_is_meant,
    law_which_rows_are_read, law_which_rows_belong_to_a_channel, skips, writes,
};
use crate::laws::logging::law_how_bodies_are_named;
use crate::laws::tidying::{
    hides, id_of, is_tidying, law_a_report_lists_what_was_hidden, law_a_tidy_report_is_sent_whole,
    law_one_that_is_alike_stays, law_unread_conversations_are_reported, law_what_tidying_hides,
    name_of, share_body, share_directory, time_of,
};
use crate::paths::FilePath;
use crate::session::copy::{
    copy_session_to_user, copy_sessions_for_switch, copy_value, find_target_session_by_cwd_title,
    plan_copy, report_copy, switch_value, target_has_equivalent_session, CopyPlan, CopyReport,
    SwitchCopy,
};
use crate::session::ids::is_random_uuid;
use crate::session::list::{
    list_sessions_for_user, list_value, listed_views, ListRow, ListedSession,
};
use crate::session::queries::{list_query, title_query};
use crate::session::rows::{
    insert_edge_sync_mapping, insert_session_copy, insert_statement, EdgeMapping, RowInsert,
    SourceTable, SqlValue,
};
use crate::session::store_paths::{
    current_user_uid, edge_sync_db_path, projects_dir, workbuddy_db_path,
};
use crate::session::stored::{stored_views, StoredSession};
use crate::session::tidy::{
    collapse_sessions_for_user, dedup_sessions_for_user, plan_removals, tidy_value, Removal,
    TidyError, TidyKind, TidyReport, TidyRun,
};
use crate::session::titles::{
    body_file_name, is_claw, is_claw_workspace, nonempty_text, normalize_cwd, plain_cwd,
    session_display_title,
};
use crate::text::{trimmed, view_opt, views};
use serde_json::Value;
use vstd::prelude::*;

verus! {

broadcast use vstd::string::group_string_axioms;

// ---------------------------------------------------------------------------
// Listing
// ---------------------------------------------------------------------------

/// The list of an account has an entry for every row whose directory is no channel's, whatever else
/// the row says, and no other; where the rows could not be read it is empty.
pub proof fn law_listing_leaves_out_channels_alone(
    rows: Option<&Vec<ListRow>>,
    list: Vec<ListedSession>,
)
    requires
        call_ensures(list_sessions_for_user, (rows,), list),
    ensures
        rows is None ==> list@.len() == 0,
        rows matches Some(given) ==> {
            &&& list@.len() == given@.filter(|row: ListRow| !is_claw(directory(row.session))).len()
            &&& forall|i: int|
                0 <= i < given@.len() && !is_claw(directory((#[trigger] given@[i]).session))
                    ==> exists|p: int|
                    0 <= p < list@.len() && is_shown_as(given@[i], #[trigger] list@[p])
            &&& forall|p: int|
                0 <= p < list@.len() ==> exists|i: int|
                    0 <= i < given@.len() && is_shown_as(#[trigger] given@[i], #[trigger] list@[p])
                        && !is_claw(directory(given@[i].session))
        },
{
    assert(listed_views(list@).len() == list@.len());
    if let Some(given) = rows {
        law_which_conversations_are_listed(given@, list@);
        let places = choose|places: Seq<int>| #[trigger]
            crate::laws::conversations::is_listing(given@, places) && places.len() == list@.len()
                && forall|p: int|
                0 <= p < list@.len() ==> is_shown_as(given@[places[p]], #[trigger] list@[p]);
        assert forall|p: int| 0 <= p < list@.len() implies exists|i: int|
            0 <= i < given@.len() && is_shown_as(#[trigger] given@[i], #[trigger] list@[p])
                && !is_claw(directory(given@[i].session)) by {
            let i = places[p];
            assert(is_shown_as(given@[i], list@[p]));
        }
    }
}

// ---------------------------------------------------------------------------
// Tidying up
// ---------------------------------------------------------------------------

/// Clearing duplicates hides a conversation only where one stays in the same directory whose body is
/// the same from end to end, once each one's own id is made neutral; conversations whose bodies
/// differ anywhere both stay.
pub proof fn law_clearing_duplicates_compares_whole_bodies(
    rows: &Vec<StoredSession>,
    r: Result<TidyRun, TidyReport>,
    p: int,
)
    requires
        call_ensures(
            dedup_sessions_for_user,
            (Ok::<&Vec<StoredSession>, TidyError>(rows),),
            r,
        ),
    ensures
        r is Ok,
        is_tidying(TidyKind::ClearDuplicates, rows@, r->Ok_0),
        0 <= p < r->Ok_0.removals@.len() ==> exists|gone: Seq<int>, k: int|
            #![trigger hides(r->Ok_0, rows@, gone), rows@[k]]
            hides(r->Ok_0, rows@, gone) && 0 <= k < rows@.len() && !gone.contains(k)
                && share_directory(rows@[gone[p]], rows@[k]) && share_body(
                rows@[gone[p]],
                rows@[k],
            ),
{
    let run = r->Ok_0;
    law_what_tidying_hides(TidyKind::ClearDuplicates, rows@, run);
    if 0 <= p < run.removals@.len() {
        law_one_that_is_alike_stays(TidyKind::ClearDuplicates, rows@, run, p);
    }
}

/// Folding hides exactly the conversations that have a namesake in the same directory which was
/// changed later, or at the same time and comes first; no body is deleted.
pub proof fn law_folding_goes_by_names(rows: &Vec<StoredSession>, r: Result<TidyRun, TidyReport>)
    requires
        call_ensures(
            collapse_sessions_for_user,
            (Ok::<&Vec<StoredSession>, TidyError>(rows),),
            r,
        ),
    ensures
        r is Ok,
        is_tidying(TidyKind::Fold, rows@, r->Ok_0),
        forall|p: int|
            0 <= p < r->Ok_0.removals@.len() ==> !(#[trigger] r->Ok_0.removals@[p]).delete_body,
{
    law_what_tidying_hides(TidyKind::Fold, rows@, r->Ok_0);
}

/// Where the conversations could not be read, neither way hides anything, and both say why.
pub proof fn law_nothing_is_tidied_unread(
    e: TidyError,
    cleared: Result<TidyRun, TidyReport>,
    folded: Result<TidyRun, TidyReport>,
)
    requires
        call_ensures(
            dedup_sessions_for_user,
            (Err::<&Vec<StoredSession>, TidyError>(e),),
            cleared,
        ),
        call_ensures(
            collapse_sessions_for_user,
            (Err::<&Vec<StoredSession>, TidyError>(e),),
            folded,
        ),
    ensures
        cleared is Err && folded is Err,
        cleared->Err_0.removed == 0 && folded->Err_0.removed == 0,
        cleared->Err_0.removed_ids@.len() == 0 && folded->Err_0.removed_ids@.len() == 0,
        cleared->Err_0.reason is Some && folded->Err_0.reason is Some,
{
    law_unread_conversations_are_reported(TidyKind::ClearDuplicates, e, cleared);
    law_unread_conversations_are_reported(TidyKind::Fold, e, folded);
}

/// The two have the same key, and it is one.
pub open spec fn have_one_key(a: Option<(String, String)>, b: Option<(String, String)>) -> bool {
    match (a, b) {
        (Some(x), Some(y)) => x.0@ == y.0@ && x.1@ == y.1@,
        _ => false,
    }
}

/// What is removed are the conversations that another one with the same key is preferred to, each
/// once: one that was changed later, or at the same time and comes first.
pub proof fn law_what_is_removed_of_a_group(
    keys: &Vec<Option<(String, String)>>,
    times: &Vec<i64>,
    r: Vec<usize>,
    i: int,
)
    requires
        keys@.len() == times@.len(),
        call_ensures(plan_removals, (keys, times), r),
        0 <= i < keys@.len(),
    ensures
        r@.no_duplicates(),
        (exists|p: int| 0 <= p < r@.len() && #[trigger] r@[p] == i) <==> exists|j: int|
            0 <= j < keys@.len() && #[trigger] have_one_key(keys@[i], keys@[j]) && (times@[j]
                > times@[i] || (times@[j] == times@[i] && j < i)),
{
    let all = crate::session::tidy::key_views(keys@);
    let stamps = crate::session::tidy::time_views(times@);
    let order = crate::session::tidy::places(r@);
    assert forall|p: int, q: int| 0 <= p < r@.len() && 0 <= q < r@.len() && p != q implies r@[p]
        != r@[q] by {
        if p < q {
            assert(crate::session::tidy::goes_first(all, stamps, order[p], order[q]));
        } else {
            assert(crate::session::tidy::goes_first(all, stamps, order[q], order[p]));
        }
    }
    assert forall|j: int| 0 <= j < keys@.len() implies crate::session::tidy::same_group(all, i, j)
        == #[trigger] have_one_key(keys@[i], keys@[j]) by {}
    if exists|p: int| 0 <= p < r@.len() && #[trigger] r@[p] == i {
        let p = choose|p: int| 0 <= p < r@.len() && #[trigger] r@[p] == i;
        assert(order[p] == i);
        assert(crate::session::tidy::is_redundant(all, stamps, order[p]));
        let j = choose|j: int|
            0 <= j < all.len() && #[trigger] crate::session::tidy::same_group(all, i, j)
                && crate::session::tidy::newer(stamps, j, i);
        assert(have_one_key(keys@[i], keys@[j]));
    }
    if exists|j: int|
        0 <= j < keys@.len() && #[trigger] have_one_key(keys@[i], keys@[j]) && (times@[j] > times@[i]
            || (times@[j] == times@[i] && j < i)) {
        let j = choose|j: int|
            0 <= j < keys@.len() && #[trigger] have_one_key(keys@[i], keys@[j]) && (times@[j]
                > times@[i] || (times@[j] == times@[i] && j < i));
        assert(crate::session::tidy::same_group(all, i, j));
        assert(crate::session::tidy::newer(stamps, j, i));
        assert(crate::session::tidy::is_redundant(all, stamps, i));
        assert(order.contains(i));
        let p = choose|p: int| 0 <= p < order.len() && order[p] == i;
        assert(r@[p] == i);
    }
}

/// The run hides the same conversations in the same order.
pub open spec fn keeps_removals(before: TidyRun, after: TidyRun) -> bool {
    &&& after.removals@.len() == before.removals@.len()
    &&& forall|i: int|
        0 <= i < before.removals@.len() ==> (#[trigger] after.removals@[i]).id@
            == before.removals@[i].id@ && after.removals@[i].delete_body
            == before.removals@[i].delete_body
}

proof fn lemma_same_removals(before: TidyRun, after: TidyRun)
    requires
        before@.removals == after@.removals,
    ensures
        keeps_removals(before, after),
{
    assert(before@.removals.len() == before.removals@.len());
    assert(after@.removals.len() == after.removals@.len());
    assert forall|i: int| 0 <= i < before.removals@.len() implies (#[trigger] after.removals@[i]).id@
        == before.removals@[i].id@ && after.removals@[i].delete_body
        == before.removals@[i].delete_body by {
        assert(before@.removals[i] == after@.removals[i]);
    }
}

/// The conversation to hide next is the first that is not hidden yet; there is none once all are
/// hidden, or where it was given up.
pub proof fn law_which_is_hidden_next(run: &TidyRun, r: Option<&Removal>)
    requires
        run.done <= run.removals@.len(),
        call_ensures(TidyRun::next, (run,), r),
    ensures
        r is Some <==> run.failure is None && run.done < run.removals@.len(),
        r matches Some(removal) ==> removal.id@ == run.removals@[run.done as int].id@
            && removal.delete_body == run.removals@[run.done as int].delete_body,
{
    assert(run@.removals.len() == run.removals@.len());
    if r is Some {
        assert(run@.removals[run@.done] == (
            run.removals@[run.done as int].id@,
            run.removals@[run.done as int].delete_body,
        ));
    }
}

/// A conversation that was hidden counts, and its body is deleted where the run deletes bodies.
pub proof fn law_how_a_run_goes_on(run: &mut TidyRun, r: bool)
    requires
        old(run).done < old(run).removals@.len(),
        call_ensures(TidyRun::on_hidden, (run,), r),
    ensures
        final(run).done == old(run).done + 1,
        keeps_removals(*old(run), *final(run)),
        view_opt(final(run).failure) == view_opt(old(run).failure),
        r == old(run).removals@[old(run).done as int].delete_body,
{
    lemma_same_removals(*old(run), *final(run));
    let at = old(run).done as int;
    assert(old(run)@.removals[at].1 == old(run).removals@[at].delete_body);
}

/// A conversation that could not be hidden ends the run: no more is hidden, and what was hidden
/// before stays counted.
pub proof fn law_a_refusal_ends_a_run(run: &mut TidyRun, error: &str, next: Option<&Removal>)
    requires
        call_ensures(TidyRun::on_refused, (run, error), ()),
        call_ensures(TidyRun::next, (final(run),), next),
    ensures
        final(run).done == old(run).done,
        keeps_removals(*old(run), *final(run)),
        final(run).failure is Some,
        final(run).failure->0@ == "写入 workbuddy.db 失败（请关闭 WorkBuddy 后重试）："@ + error@,
        next is None,
{
    lemma_same_removals(*old(run), *final(run));
}

/// What a run reports.
pub proof fn law_what_a_run_reports(run: &TidyRun, r: TidyReport)
    requires
        run.done <= run.removals@.len(),
        call_ensures(TidyRun::report, (run,), r),
    ensures
        r.removed == run.done,
        r.removed_ids@.len() == run.done,
        forall|i: int|
            0 <= i < run.done ==> (#[trigger] r.removed_ids@[i])@ == run.removals@[i].id@,
        view_opt(r.reason) == view_opt(run.failure),
{
    assert(run@.removals.len() == run.removals@.len());
    law_a_report_lists_what_was_hidden(*run, r);
}

// ---------------------------------------------------------------------------
// Copying
// ---------------------------------------------------------------------------

/// What becomes of the wish to copy a conversation.
pub proof fn law_copying_goes_by_bodies_names_and_times(
    source: Option<&StoredSession>,
    equivalents: &Vec<StoredSession>,
    titled: &Vec<StoredSession>,
    new_id: String,
    r: Result<CopyPlan, String>,
)
    requires
        call_ensures(plan_copy, (source, equivalents, titled, new_id), r),
    ensures
        is_outcome(source, equivalents@, titled@, new_id@, r),
{
    law_what_becomes_of_a_copy(source, equivalents@, titled@, new_id@, r);
}

/// Where the source exists, belongs to no channel and has no equal in the other account, the first
/// namesake in its directory is written over if it was changed earlier than the source. Copying is
/// skipped for a newer namesake only where that was changed no earlier. Nothing else plays a part.
pub proof fn law_an_older_namesake_is_brought_up_to_date(
    source: StoredSession,
    equivalents: &Vec<StoredSession>,
    titled: &Vec<StoredSession>,
    new_id: String,
    r: Result<CopyPlan, String>,
    i: int,
)
    requires
        call_ensures(plan_copy, (Some(&source), equivalents, titled, new_id), r),
        !is_claw(directory(source)),
        forall|k: int|
            0 <= k < equivalents@.len() ==> !is_the_same(#[trigger] equivalents@[k], source),
        is_first_namesake(titled@, source, i),
    ensures
        r is Ok,
        time_of(titled@[i]) < time_of(source) <==> r->Ok_0 is Write,
        time_of(titled@[i]) < time_of(source) ==> writes(
            r->Ok_0,
            source,
            id_of(titled@[i]),
            false,
        ),
        time_of(titled@[i]) >= time_of(source) ==> skips(
            r->Ok_0,
            id_of(titled@[i]),
            "目标账号已有同名且更新的会话，跳过以避免覆盖"@,
        ),
{
    law_what_becomes_of_a_copy(Some(&source), equivalents@, titled@, new_id@, r);
}

/// A new conversation gets a random id; all else is as for any id.
pub proof fn law_a_new_conversation_gets_a_random_id(
    source: Option<&StoredSession>,
    equivalents: &Vec<StoredSession>,
    titled: &Vec<StoredSession>,
    r: Result<CopyPlan, String>,
)
    requires
        call_ensures(copy_session_to_user, (source, equivalents, titled), r),
    ensures
        exists|new_id: Seq<char>| #[trigger]
            is_random_uuid(new_id) && is_outcome(source, equivalents@, titled@, new_id, r),
{
    let new_id = choose|new_id: Seq<char>|
        #![trigger is_random_uuid(new_id)]
        is_random_uuid(new_id) && crate::session::copy::plan_view(r)
            == crate::session::copy::planned(
            crate::session::copy::source_view(source),
            stored_views(equivalents@),
            stored_views(titled@),
            new_id,
        );
    law_what_becomes_of_a_copy(source, equivalents@, titled@, new_id, r);
}

/// The other account has the conversation exactly where one of its own is the same.
pub proof fn law_when_an_account_has_a_conversation(
    targets: &Vec<StoredSession>,
    source: &StoredSession,
    r: bool,
)
    requires
        call_ensures(target_has_equivalent_session, (targets, source), r),
    ensures
        r <==> exists|i: int|
            0 <= i < targets@.len() && is_the_same(#[trigger] targets@[i], *source),
{
    let all = stored_views(targets@);
    assert forall|i: int| 0 <= i < targets@.len() implies crate::session::copy::is_equivalent(
        all[i],
        source@,
    ) == is_the_same(#[trigger] targets@[i], *source) by {
        crate::laws::copying::lemma_views(targets@[i], *source);
    }
    if r {
        let i = choose|i: int|
            0 <= i < all.len() && crate::session::copy::is_equivalent(#[trigger] all[i], source@);
        assert(is_the_same(targets@[i], *source));
    }
    if exists|i: int| 0 <= i < targets@.len() && is_the_same(#[trigger] targets@[i], *source) {
        let i = choose|i: int|
            0 <= i < targets@.len() && is_the_same(#[trigger] targets@[i], *source);
        assert(crate::session::copy::is_equivalent(all[i], source@));
    }
}

/// The first conversation of that name in that directory that belongs to no channel is found, with
/// its id and its time.
pub proof fn law_which_namesake_is_found(
    targets: &Vec<StoredSession>,
    cwd: &str,
    title: &str,
    r: Option<(String, i64)>,
)
    requires
        call_ensures(find_target_session_by_cwd_title, (targets, cwd, title), r),
    ensures
        r matches Some(found) ==> exists|i: int|
            0 <= i < targets@.len() && goes_by(#[trigger] targets@[i], cwd@, title@) && found.0@
                == id_of(targets@[i]) && found.1 == time_of(targets@[i]) && forall|j: int|
                0 <= j < i ==> !goes_by(#[trigger] targets@[j], cwd@, title@),
        r is None ==> forall|j: int|
            0 <= j < targets@.len() ==> !goes_by(#[trigger] targets@[j], cwd@, title@),
{
    let all = stored_views(targets@);
    crate::laws::copying::law_the_first_of_a_name_is_found(targets@, cwd@, title@);
    if let Some(i) = crate::session::copy::named_index(all, cwd@, title@) {
        assert(all[i] == targets@[i]@);
        assert(goes_by(targets@[i], cwd@, title@));
    }
}

/// The conversation belongs to no channel, stands in the directory and goes by the name.
pub open spec fn goes_by(s: StoredSession, cwd: Seq<char>, title: Seq<char>) -> bool {
    !is_claw(directory(s)) && plain_cwd(directory(s)) == cwd && name_of(s) == title
}

/// What is reported of a copy.
pub proof fn law_a_copy_is_reported(
    id: &str,
    plan: CopyPlan,
    jsonl_copied: bool,
    mapping_written: bool,
    backup: String,
    r: CopyReport,
)
    requires
        call_ensures(report_copy, (id, plan, jsonl_copied, mapping_written, backup), r),
    ensures
        is_report_of(id@, plan, jsonl_copied, mapping_written, backup@, r),
{
    law_what_is_reported_of_a_copy(id@, plan, jsonl_copied, mapping_written, backup@, r);
}

/// Without a table, or a row in it, nothing is written; a row of a channel is refused; any other is
/// written whole, with the new id and the other account, and not deleted.
pub proof fn law_which_row_is_written(
    table: Option<&SourceTable>,
    new_id: &str,
    target_uid: &str,
    r: Result<Option<RowInsert>, String>,
)
    requires
        call_ensures(insert_session_copy, (table, new_id, target_uid), r),
        table matches Some(t) ==> (t.row matches Some(row) ==> row@.len() == t.columns@.len()),
    ensures
        table is None || table->0.row is None ==> r is Ok && r->Ok_0 is None,
        table is Some && table->0.row is Some ==> {
            let columns = table->0.columns@;
            let row = table->0.row->0@;
            let refused = exists|i: int|
                0 <= i < columns.len() && (#[trigger] columns[i])@ == "cwd"@ && (row[i] matches SqlValue::Text(
                    cwd,
                ) && is_claw(cwd@));
            &&& refused ==> r is Err && r->Err_0@
                == "Claw 工作区绑定当前账号渠道，不支持复制"@
            &&& !refused ==> r is Ok && r->Ok_0 is Some
            &&& !refused ==> {
                let written = r->Ok_0->0;
                &&& written.sql@ == insert_statement(views(columns))
                &&& written.values@.len() == row.len()
                &&& forall|i: int|
                    0 <= i < row.len() ==> {
                        let name = columns[i]@;
                        &&& name == "id"@ ==> ((#[trigger] written.values@[i]) matches SqlValue::Text(
                            s,
                        ) && s@ == new_id@)
                        &&& name == "user_id"@ ==> (written.values@[i] matches SqlValue::Text(s) && s@
                            == target_uid@)
                        &&& name == "deleted_at"@ ==> written.values@[i] is Null
                        &&& name != "id"@ && name != "user_id"@ && name != "deleted_at"@
                            ==> written.values@[i]@ == row[i]@
                    }
            }
        },
{
    if table is Some && table->0.row is Some {
        let columns = table->0.columns@;
        let row = table->0.row->0@;
        law_which_rows_belong_to_a_channel(columns, row);
        if r is Ok && r->Ok_0 is Some {
            let written = r->Ok_0->0;
            law_what_a_copied_row_holds(columns, row, written.values@, new_id@, target_uid@);
            assert forall|i: int| 0 <= i < row.len() implies {
                let name = columns[i]@;
                name != "id"@ && name != "user_id"@ && name != "deleted_at"@
                    ==> (#[trigger] written.values@[i])@ == row[i]@
            } by {
                let copy = crate::session::rows::value_views(written.values@);
                assert(copy[i] == written.values@[i]@);
                assert(crate::session::rows::value_views(row)[i] == row[i]@);
                assert(views(columns)[i] == columns[i]@);
            }
        }
    }
}

/// The cloud learns of a new conversation wherever there is a table for it.
pub proof fn law_the_cloud_learns_of_a_new_conversation(
    has_table: bool,
    new_id: &str,
    target_uid: &str,
    now: i64,
    r: Option<EdgeMapping>,
)
    requires
        call_ensures(insert_edge_sync_mapping, (has_table, new_id, target_uid, now), r),
    ensures
        r is Some <==> has_table,
        r matches Some(m) ==> m.session_id@ == new_id@ && m.conversation_id@ == new_id@
            && m.msg_channel@ == "convmsg:"@ + target_uid@ && m.created_at == now,
{
}

/// Conversations are copied on a change of accounts where both accounts are known and differ; the
/// copying begins with nothing copied and nothing failed.
pub proof fn law_when_conversations_are_copied_on_a_switch(
    target_acc: &Value,
    source_uid: Option<String>,
    r: Option<SwitchCopy>,
)
    requires
        call_ensures(copy_sessions_for_switch, (target_acc, source_uid), r),
    ensures
        ({
            let described = member(json_tree(*target_acc), "uid"@);
            let known = described is Some && described->0 is Text && is_visible(
                described->0->Text_0,
            );
            let target = trimmed(described->0->Text_0);
            &&& r is Some <==> known && source_uid is Some && source_uid->0@ != target
            &&& r matches Some(begun) ==> begun.source_uid@ == source_uid->0@ && begun.target_uid@
                == target && begun.copied@.len() == 0 && begun.errors@.len() == 0
        }),
{
    let account = json_tree(*target_acc);
    law_which_account_is_meant(account, account);
    if let Some(JsonTree::Text(uid)) = member(account, "uid"@) {
        crate::laws::text::law_only_blank_text_is_trimmed_away(uid);
    }
    if let Some(begun) = r {
        assert(begun@.copied.len() == begun.copied@.len());
        assert(begun@.errors.len() == begun.errors@.len());
    }
}

/// Each result is kept.
pub proof fn law_each_result_is_kept(
    switch: &mut SwitchCopy,
    id: &str,
    result: Result<CopyReport, String>,
)
    requires
        call_ensures(SwitchCopy::add_result, (switch, id, result), ()),
    ensures
        final(switch).source_uid@ == old(switch).source_uid@,
        final(switch).target_uid@ == old(switch).target_uid@,
        result matches Ok(report) ==> {
            &&& final(switch).copied@.len() == old(switch).copied@.len() + 1
            &&& final(switch).copied@[old(switch).copied@.len() as int]@ == report@
            &&& final(switch).errors@.len() == old(switch).errors@.len()
        },
        result matches Err(e) ==> {
            &&& final(switch).errors@.len() == old(switch).errors@.len() + 1
            &&& final(switch).errors@[old(switch).errors@.len() as int].0@ == id@
            &&& final(switch).errors@[old(switch).errors@.len() as int].1@ == e@
            &&& final(switch).copied@.len() == old(switch).copied@.len()
        },
{
    law_results_are_collected(*old(switch), *final(switch), id@, result);
}

/// The account that is signed in is the text under `uid` in the member `account` of the
/// authentication file; without such a file, or such a text, nobody is.
pub proof fn law_who_is_signed_in(auth: Option<&Value>, r: Option<String>)
    requires
        call_ensures(current_user_uid, (auth,), r),
    ensures
        auth is None ==> r is None,
        auth matches Some(file) ==> {
            let account = member(json_tree(*file), "account"@);
            let uid = member(account->0, "uid"@);
            &&& r is Some <==> account is Some && uid is Some && uid->0 is Text
            &&& r matches Some(id) ==> id@ == uid->0->Text_0
        },
{
}

// ---------------------------------------------------------------------------
// Names and directories
// ---------------------------------------------------------------------------

/// The name under which a conversation is shown is the one that the user gave it, or else its title.
pub proof fn law_the_name_of_a_conversation(
    title: Option<String>,
    custom_title: Option<String>,
    r: String,
)
    requires
        call_ensures(session_display_title, (title, custom_title), r),
    ensures
        ({
            let named = custom_title is Some && is_visible(custom_title->0@);
            let titled = title is Some && is_visible(title->0@);
            &&& named ==> r@ == trimmed(custom_title->0@)
            &&& !named && titled ==> r@ == trimmed(title->0@)
            &&& !named && !titled ==> r@ == "(无标题)"@
        }),
{
    law_which_name_is_shown(view_opt(title), view_opt(custom_title));
}

/// A directory belongs to a channel by its name alone.
pub proof fn law_the_directory_of_a_channel(cwd: &str, plain: String, r: bool)
    requires
        call_ensures(is_claw_workspace, (cwd,), r),
        call_ensures(normalize_cwd, (cwd,), plain),
    ensures
        r <==> is_channel_name(plain@) || exists|head: Seq<char>, separator: char, name: Seq<char>|
            (separator == '/' || separator == '\\') && is_channel_name(name) && plain@
                == #[trigger] (head + seq![separator] + name),
{
    law_which_directories_belong_to_a_channel(cwd@);
}

/// Without the white space around it a text is there or it is not.
pub proof fn law_which_texts_count(value: Option<String>, r: Option<String>)
    requires
        call_ensures(nonempty_text, (value,), r),
    ensures
        r is Some <==> value is Some && is_visible(value->0@),
        r is Some ==> r->0@ == trimmed(value->0@),
{
    law_which_name_is_shown(None, view_opt(value));
}

/// The file of a body is named after the conversation, and after no other.
pub proof fn law_the_file_of_a_body(id: &str, other: &str, file: String, other_file: String)
    requires
        call_ensures(body_file_name, (id,), file),
        call_ensures(body_file_name, (other,), other_file),
    ensures
        file@ == id@ + ".jsonl"@,
        file@ == other_file@ ==> id@ == other@,
{
    law_how_bodies_are_named(id@, other@);
}

/// What is read from the database.
pub proof fn law_the_statements_in_use(
    has_custom: bool,
    has_playground: bool,
    listing: &'static str,
    naming: &'static str,
)
    requires
        call_ensures(list_query, (has_custom, has_playground), listing),
        call_ensures(title_query, (has_custom,), naming),
    ensures
        listing@ == "SELECT id, cwd, title, "@ + (if has_custom {
            "custom_title"@
        } else {
            "NULL"@
        }) + ", updated_at, "@ + (if has_playground {
            "is_playground"@
        } else {
            "0"@
        }) + " FROM sessions WHERE user_id = ?1 AND deleted_at IS NULL"@
            + " ORDER BY updated_at DESC"@,
        naming@ == "SELECT id, cwd, title, "@ + (if has_custom {
            "custom_title"@
        } else {
            "NULL"@
        }) + ", updated_at"@ + " FROM sessions WHERE user_id = ?1 AND deleted_at IS NULL"@,
{
    law_which_rows_are_read(has_custom, has_playground);
}

/// Where the client keeps its conversations.
pub proof fn law_the_files_of_the_client(
    home: &str,
    db: FilePath,
    edge: FilePath,
    bodies: FilePath,
)
    requires
        call_ensures(workbuddy_db_path, (home,), db),
        call_ensures(edge_sync_db_path, (home,), edge),
        call_ensures(projects_dir, (home,), bodies),
    ensures
        stands_in_client(db, home@, "workbuddy.db"@),
        stands_in_client(edge, home@, "edge-sync-mapping-v2.db"@),
        stands_in_client(bodies, home@, "projects"@),
{
    lemma_stands(db, home@, "workbuddy.db"@);
    lemma_stands(edge, home@, "edge-sync-mapping-v2.db"@);
    lemma_stands(bodies, home@, "projects"@);
}

/// The path leads from the home directory to the client's own and on to `name`.
pub open spec fn stands_in_client(path: FilePath, home: Seq<char>, name: Seq<char>) -> bool {
    &&& path.base@ == home
    &&& path.names@.len() == 2
    &&& path.names@[0]@ == ".workbuddy"@
    &&& path.names@[1]@ == name
}

proof fn lemma_stands(path: FilePath, home: Seq<char>, name: Seq<char>)
    requires
        path@ == crate::session::store_paths::client_dir(home).below(name),
    ensures
        stands_in_client(path, home, name),
{
    assert(views(path.names@).len() == path.names@.len());
    assert(views(path.names@)[0] == path.names@[0]@);
    assert(views(path.names@)[1] == path.names@[1]@);
}

/// What is sent out is what was found, what was hidden and what was copied.
pub proof fn law_what_is_sent_of_conversations(
    list: &Vec<ListedSession>,
    listed: Value,
    tidied: &TidyReport,
    tidied_sent: Value,
    copied: &CopyReport,
    copied_sent: Value,
    switched: &SwitchCopy,
    switched_sent: Value,
)
    requires
        call_ensures(list_value, (list,), listed),
        call_ensures(tidy_value, (tidied,), tidied_sent),
        call_ensures(copy_value, (copied,), copied_sent),
        call_ensures(switch_value, (switched,), switched_sent),
    ensures
        json_tree(listed) matches JsonTree::Array(items) && items.len() == list@.len() && forall|
            i: int,
        |
            0 <= i < items.len() ==> member(#[trigger] items[i], "id"@) == Some(
                JsonTree::Text(list@[i].id@),
            ) && member(items[i], "title"@) == Some(JsonTree::Text(list@[i].title@)) && member(
                items[i],
                "cwd"@,
            ) == Some(JsonTree::Text(list@[i].cwd@)) && member(items[i], "updatedAt"@) == Some(
                JsonTree::Number(Some(list@[i].updated_at)),
            ) && member(items[i], "hasHistory"@) == Some(JsonTree::Bool(list@[i].has_history))
                && member(items[i], "isPlayground"@) == Some(
                JsonTree::Bool(list@[i].is_playground),
            ),
        member(json_tree(tidied_sent), "ok"@) == Some(JsonTree::Bool(tidied.reason is None)),
        member(json_tree(copied_sent), "skipped"@) == Some(JsonTree::Bool(copied is Skipped)),
        member(json_tree(copied_sent), "updated"@) is Some <==> copied is Updated,
        member(json_tree(switched_sent), "errors"@) is Some <==> switched.errors@.len() > 0,
{
    let items = json_tree(listed)->Array_0;
    assert forall|i: int| 0 <= i < items.len() implies member(#[trigger] items[i], "id"@) == Some(
        JsonTree::Text(list@[i].id@),
    ) && member(items[i], "title"@) == Some(JsonTree::Text(list@[i].title@)) && member(
        items[i],
        "cwd"@,
    ) == Some(JsonTree::Text(list@[i].cwd@)) && member(items[i], "updatedAt"@) == Some(
        JsonTree::Number(Some(list@[i].updated_at)),
    ) && member(items[i], "hasHistory"@) == Some(JsonTree::Bool(list@[i].has_history)) && member(
        items[i],
        "isPlayground"@,
    ) == Some(JsonTree::Bool(list@[i].is_playground)) by {
        law_a_listed_conversation_is_sent_whole(list@[i]);
    }
    law_a_tidy_report_is_sent_whole(*tidied);
    law_a_copy_report_is_sent_whole(*copied);
    law_a_switch_report_is_sent_whole(*switched);
}

} // verus!
