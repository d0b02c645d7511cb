//! What becomes of the wish to copy a conversation to another account.

use crate::json::{lemma_member, lemma_no_member, member, object_tree, JsonTree};
use crate::laws::conversations::{directory, law_which_name_is_shown};
use crate::laws::tidying::{id_of, name_of, share_body, time_of};
use crate::session::copy::{
    account_in, copy_error_fields, copy_fields, has_equivalent, is_equivalent, is_named,
    lemma_named_index, named_index, plan_view, planned, reported, source_view, switch_fields,
    CopyPlan, CopyReport, SwitchCopy, SwitchView,
};
use crate::session::queries::{list_statement, title_statement, BODY_QUERY, COMPARED_QUERY};
use crate::session::rows::{
    channel_of, copied_values, entry_for, insert_statement, is_channel_row, question_marks,
    value_views, EdgeMapping, SqlValue,
};
use crate::session::store_paths::signed_in;
use crate::session::stored::{shown_title, stored_views, Body, StoredSession};
use crate::session::titles::{is_claw, plain_cwd};
use crate::text::{replaced, separated, trimmed, views};
use vstd::prelude::*;

verus! {

broadcast use vstd::string::group_string_axioms;

// ---------------------------------------------------------------------------
// The plan
// ---------------------------------------------------------------------------

/// The conversation `t` of the other account is `s`: in the same directory, and with the same whole
/// body once each one's own id is made neutral; where `s` has no body that can be read, `t` has none
/// and the same name.
pub open spec fn is_the_same(t: StoredSession, s: StoredSession) -> bool {
    &&& !is_claw(directory(t))
    &&& plain_cwd(directory(t)) == plain_cwd(directory(s))
    &&& if s.body is Text {
        share_body(t, s)
    } else {
        t.body is Absent && name_of(t) == name_of(s)
    }
}

/// The conversation `t` has the name of `s` and stands in its directory.
pub open spec fn is_namesake(t: StoredSession, s: StoredSession) -> bool {
    &&& !is_claw(directory(t))
    &&& plain_cwd(directory(t)) == plain_cwd(directory(s))
    &&& name_of(t) == name_of(s)
}

/// The first namesake of `s` stands at `i`.
pub open spec fn is_first_namesake(titled: Seq<StoredSession>, s: StoredSession, i: int) -> bool {
    &&& 0 <= i < titled.len()
    &&& is_namesake(titled[i], s)
    &&& forall|j: int| 0 <= j < i ==> !is_namesake(#[trigger] titled[j], s)
}

/// The plan writes `s` under the id `id`: its body, where it can be read, with each mention of its
/// own id replaced, and nothing else of it changed.
pub open spec fn writes(plan: CopyPlan, s: StoredSession, id: Seq<char>, new: bool) -> bool {
    plan matches CopyPlan::Write { target_id, body, is_new } && target_id@ == id && is_new == new
        && match s.body {
        Body::Text(text) => body matches Some(b) && b@ == replaced(text@, id_of(s), id),
        _ => body is None,
    }
}

/// The plan does nothing, for the reason `why`, and names the conversation `id`.
pub open spec fn skips(plan: CopyPlan, id: Seq<char>, why: Seq<char>) -> bool {
    plan matches CopyPlan::Skip { target_id, reason } && target_id@ == id && reason@ == why
}

pub(crate) proof fn lemma_views(t: StoredSession, s: StoredSession)
    ensures
        t@.cwd == directory(t),
        t@.id == id_of(t),
        t@.updated_at == time_of(t),
        shown_title(t@) == name_of(t),
        is_equivalent(t@, s@) == is_the_same(t, s),
        is_named(t@, plain_cwd(s@.cwd), shown_title(s@)) == is_namesake(t, s),
{
    law_which_name_is_shown(t@.title, t@.custom_title);
    law_which_name_is_shown(s@.title, s@.custom_title);
}

/// No conversation before the one that is found has the name.
proof fn lemma_first_named(
    targets: Seq<crate::session::stored::StoredView>,
    cwd: Seq<char>,
    title: Seq<char>,
)
    ensures
        named_index(targets, cwd, title) matches Some(i) ==> forall|j: int|
            0 <= j < i ==> !is_named(#[trigger] targets[j], cwd, title),
    decreases targets.len(),
{
    if targets.len() > 0 {
        let short = targets.drop_last();
        lemma_first_named(short, cwd, title);
        lemma_named_index(short, cwd, title);
        if let Some(i) = named_index(targets, cwd, title) {
            assert forall|j: int| 0 <= j < i implies !is_named(
                #[trigger] targets[j],
                cwd,
                title,
            ) by {
                assert(short[j] == targets[j]);
            }
        }
    }
}

/// `r` is what becomes of the wish to copy `source`, with `new_id` for a new conversation.
pub open spec fn is_outcome(
    source: Option<&StoredSession>,
    equivalents: Seq<StoredSession>,
    titled: Seq<StoredSession>,
    new_id: Seq<char>,
    r: Result<CopyPlan, String>,
) -> bool {
    &&& source is None ==> (r matches Err(e) && e@ == "源会话不存在，无法复制"@)
    &&& source matches Some(s) ==> {
        let same = exists|i: int|
            0 <= i < equivalents.len() && is_the_same(#[trigger] equivalents[i], *s);
        let named = exists|i: int|
            0 <= i < titled.len() && is_namesake(#[trigger] titled[i], *s);
        &&& is_claw(directory(*s)) ==> (r matches Err(e) && e@
            == "Claw 工作区绑定当前账号渠道，不支持复制"@)
        &&& !is_claw(directory(*s)) ==> r is Ok
        &&& !is_claw(directory(*s)) && same ==> skips(
            r->Ok_0,
            Seq::empty(),
            "目标账号已存在等价会话，跳过复制以避免重复"@,
        )
        &&& forall|i: int| #[trigger]
            is_first_namesake(titled, *s, i) && !is_claw(directory(*s)) && !same ==> if time_of(
                titled[i],
            ) < time_of(*s) {
                writes(r->Ok_0, *s, id_of(titled[i]), false)
            } else {
                skips(
                    r->Ok_0,
                    id_of(titled[i]),
                    "目标账号已有同名且更新的会话，跳过以避免覆盖"@,
                )
            }
        &&& !is_claw(directory(*s)) && !same && !named ==> writes(r->Ok_0, *s, new_id, true)
    }
}

/// Without a source, or where it belongs to a channel, copying fails and says so. Where the other
/// account has the same conversation nothing is copied. Else the first namesake in the same
/// directory is written over if it was changed before the source, and left alone if it was changed
/// at the same time or later. Without a namesake the source is copied under the new id. Nothing but
/// the directories, the bodies, the names and the times of change plays a part.
pub proof fn law_what_becomes_of_a_copy(
    source: Option<&StoredSession>,
    equivalents: Seq<StoredSession>,
    titled: Seq<StoredSession>,
    new_id: Seq<char>,
    r: Result<CopyPlan, String>,
)
    requires
        plan_view(r) == planned(
            source_view(source),
            stored_views(equivalents),
            stored_views(titled),
            new_id,
        ),
    ensures
        is_outcome(source, equivalents, titled, new_id, r),
{
    if let Some(s) = source {
        let eq = stored_views(equivalents);
        let ti = stored_views(titled);
        lemma_views(*s, *s);
        assert forall|i: int| 0 <= i < equivalents.len() implies is_equivalent(
            #[trigger] eq[i],
            s@,
        ) == is_the_same(equivalents[i], *s) by {
            lemma_views(equivalents[i], *s);
        }
        let same = exists|i: int|
            0 <= i < equivalents.len() && is_the_same(#[trigger] equivalents[i], *s);
        assert(has_equivalent(eq, s@) == same) by {
            if has_equivalent(eq, s@) {
                let i = choose|i: int| 0 <= i < eq.len() && is_equivalent(#[trigger] eq[i], s@);
                assert(is_the_same(equivalents[i], *s));
            }
            if same {
                let i = choose|i: int|
                    0 <= i < equivalents.len() && is_the_same(#[trigger] equivalents[i], *s);
                assert(is_equivalent(eq[i], s@));
            }
        }
        let cwd = plain_cwd(s@.cwd);
        let title = shown_title(s@);
        lemma_named_index(ti, cwd, title);
        lemma_first_named(ti, cwd, title);
        assert forall|i: int| 0 <= i < titled.len() implies is_named(#[trigger] ti[i], cwd, title)
            == is_namesake(titled[i], *s) && ti[i].id == id_of(titled[i]) && ti[i].updated_at
            == time_of(titled[i]) by {
            lemma_views(titled[i], *s);
        }
        if let Some(k) = named_index(ti, cwd, title) {
            assert(is_named(ti[k], cwd, title));
            assert(is_namesake(titled[k], *s));
            assert forall|i: int| is_first_namesake(titled, *s, i) implies i == k by {
                if i < k {
                    assert(!is_named(ti[i], cwd, title));
                } else if k < i {
                    assert(!is_namesake(titled[k], *s));
                }
            }
        } else {
            assert forall|i: int| 0 <= i < titled.len() implies !is_namesake(
                #[trigger] titled[i],
                *s,
            ) by {
                assert(!is_named(ti[i], cwd, title));
            }
        }
    }
}

/// The other account has a namesake exactly where it has a first one.
pub proof fn law_there_is_a_first_namesake(titled: Seq<StoredSession>, s: StoredSession)
    ensures
        (exists|i: int| 0 <= i < titled.len() && is_namesake(#[trigger] titled[i], s)) <==> exists|
            i: int,
        |
            is_first_namesake(titled, s, i),
    decreases titled.len(),
{
    if exists|i: int| is_first_namesake(titled, s, i) {
        let i = choose|i: int| is_first_namesake(titled, s, i);
        assert(is_namesake(titled[i], s));
    }
    if titled.len() > 0 && exists|i: int| 0 <= i < titled.len() && is_namesake(
        #[trigger] titled[i],
        s,
    ) {
        let short = titled.drop_last();
        law_there_is_a_first_namesake(short, s);
        if exists|i: int| 0 <= i < short.len() && is_namesake(#[trigger] short[i], s) {
            let i = choose|i: int| is_first_namesake(short, s, i);
            assert forall|j: int| 0 <= j < i implies !is_namesake(#[trigger] titled[j], s) by {
                assert(short[j] == titled[j]);
            }
            assert(is_first_namesake(titled, s, i));
        } else {
            let n = titled.len() - 1;
            assert forall|j: int| 0 <= j < n implies !is_namesake(#[trigger] titled[j], s) by {
                assert(short[j] == titled[j]);
            }
            assert(is_first_namesake(titled, s, n));
        }
    }
}

/// What is found under a name in a directory is the first conversation there that belongs to no
/// channel and goes by that name; where nothing is found there is none.
pub proof fn law_the_first_of_a_name_is_found(
    targets: Seq<StoredSession>,
    cwd: Seq<char>,
    title: Seq<char>,
)
    ensures
        named_index(stored_views(targets), cwd, title) matches Some(i) ==> {
            &&& 0 <= i < targets.len()
            &&& !is_claw(directory(targets[i])) && plain_cwd(directory(targets[i])) == cwd
                && name_of(targets[i]) == title
            &&& forall|j: int|
                0 <= j < i ==> is_claw(directory(#[trigger] targets[j])) || plain_cwd(
                    directory(targets[j]),
                ) != cwd || name_of(targets[j]) != title
        },
        named_index(stored_views(targets), cwd, title) is None ==> forall|j: int|
            0 <= j < targets.len() ==> is_claw(directory(#[trigger] targets[j])) || plain_cwd(
                directory(targets[j]),
            ) != cwd || name_of(targets[j]) != title,
{
    let all = stored_views(targets);
    lemma_named_index(all, cwd, title);
    lemma_first_named(all, cwd, title);
    assert forall|j: int| 0 <= j < targets.len() implies is_named(all[j], cwd, title) == (!is_claw(
        directory(#[trigger] targets[j]),
    ) && plain_cwd(directory(targets[j])) == cwd && name_of(targets[j]) == title) by {
        lemma_views(targets[j], targets[j]);
    }
}

// ---------------------------------------------------------------------------
// Reports
// ---------------------------------------------------------------------------

/// `r` reports what became of the conversation `id` by `plan`.
pub open spec fn is_report_of(
    id: Seq<char>,
    plan: CopyPlan,
    jsonl_copied: bool,
    mapping_written: bool,
    backup: Seq<char>,
    r: CopyReport,
) -> bool {
    &&& plan matches CopyPlan::Skip { target_id, reason } ==> (r matches CopyReport::Skipped {
        id: of,
        new_id,
        reason: why,
    } && of@ == id && new_id@ == target_id@ && why@ == reason@)
    &&& plan matches CopyPlan::Write { target_id, body, is_new } ==> if is_new {
        r matches CopyReport::Created {
            id: of,
            new_id,
            jsonl_copied: copied,
            mapping_written: mapped,
            backup: saved,
        } && of@ == id && new_id@ == target_id@ && copied == jsonl_copied && mapped
            == mapping_written && saved@ == backup
    } else {
        r matches CopyReport::Updated { id: of, new_id, jsonl_copied: copied, backup: saved }
            && of@ == id && new_id@ == target_id@ && copied == jsonl_copied && saved@ == backup
    }
}

/// A plan that does nothing is reported as skipped, with its reason; one that writes, as a new
/// conversation or as one that was brought up to date, with what became of it.
pub proof fn law_what_is_reported_of_a_copy(
    id: Seq<char>,
    plan: CopyPlan,
    jsonl_copied: bool,
    mapping_written: bool,
    backup: Seq<char>,
    r: CopyReport,
)
    requires
        r@ == reported(id, plan@, jsonl_copied, mapping_written, backup),
    ensures
        is_report_of(id, plan, jsonl_copied, mapping_written, backup, r),
{
}

/// What is sent out of a report tells of which conversation it is and under which id it is found
/// now, whether it was skipped and why, and what was written.
pub proof fn law_a_copy_report_is_sent_whole(r: CopyReport)
    ensures
        ({
            let sent = object_tree(copy_fields(r@));
            match r {
                CopyReport::Skipped { id, new_id, reason } => {
                    &&& member(sent, "id"@) == Some(JsonTree::Text(id@))
                    &&& member(sent, "newId"@) == Some(JsonTree::Text(new_id@))
                    &&& member(sent, "skipped"@) == Some(JsonTree::Bool(true))
                    &&& member(sent, "updated"@) is None
                    &&& member(sent, "reason"@) == Some(JsonTree::Text(reason@))
                    &&& member(sent, "jsonlCopied"@) == Some(JsonTree::Bool(false))
                    &&& member(sent, "mappingWritten"@) == Some(JsonTree::Bool(false))
                    &&& member(sent, "backup"@) == Some(JsonTree::Text(""@))
                },
                CopyReport::Updated { id, new_id, jsonl_copied, backup } => {
                    &&& member(sent, "id"@) == Some(JsonTree::Text(id@))
                    &&& member(sent, "newId"@) == Some(JsonTree::Text(new_id@))
                    &&& member(sent, "skipped"@) == Some(JsonTree::Bool(false))
                    &&& member(sent, "updated"@) == Some(JsonTree::Bool(true))
                    &&& member(sent, "reason"@) == Some(
                        JsonTree::Text("目标账号已有同名会话，已同步为源端最新版本"@),
                    )
                    &&& member(sent, "jsonlCopied"@) == Some(JsonTree::Bool(jsonl_copied))
                    &&& member(sent, "mappingWritten"@) == Some(JsonTree::Bool(false))
                    &&& member(sent, "backup"@) == Some(JsonTree::Text(backup@))
                },
                CopyReport::Created { id, new_id, jsonl_copied, mapping_written, backup } => {
                    &&& member(sent, "id"@) == Some(JsonTree::Text(id@))
                    &&& member(sent, "newId"@) == Some(JsonTree::Text(new_id@))
                    &&& member(sent, "skipped"@) == Some(JsonTree::Bool(false))
                    &&& member(sent, "updated"@) is None
                    &&& member(sent, "reason"@) is None
                    &&& member(sent, "jsonlCopied"@) == Some(JsonTree::Bool(jsonl_copied))
                    &&& member(sent, "mappingWritten"@) == Some(JsonTree::Bool(mapping_written))
                    &&& member(sent, "backup"@) == Some(JsonTree::Text(backup@))
                },
            }
        }),
{
    let fields = copy_fields(r@);
    lemma_names();
    lemma_member(fields, 0);
    lemma_member(fields, 1);
    lemma_member(fields, 2);
    lemma_member(fields, 3);
    lemma_member(fields, 4);
    lemma_member(fields, 5);
    match r {
        CopyReport::Skipped { .. } => {
            lemma_member(fields, 6);
            lemma_no_member(fields, "updated"@);
        },
        CopyReport::Updated { .. } => {
            lemma_member(fields, 6);
            lemma_member(fields, 7);
        },
        CopyReport::Created { .. } => {
            lemma_no_member(fields, "updated"@);
            lemma_no_member(fields, "reason"@);
        },
    }
}

proof fn lemma_names()
    ensures
        "id"@.len() == 2,
        "newId"@.len() == 5,
        "error"@.len() == 5,
        "skipped"@.len() == 7,
        "updated"@.len() == 7,
        "reason"@.len() == 6,
        "jsonlCopied"@.len() == 11,
        "mappingWritten"@.len() == 14,
        "backup"@.len() == 6,
        "skipped"@ != "updated"@,
        "reason"@ != "backup"@,
        "sourceUid"@.len() == 9,
        "targetUid"@.len() == 9,
        "sourceUid"@ != "targetUid"@,
        "copied"@.len() == 6,
        "errors"@.len() == 6,
        "copied"@ != "errors"@,
{
    reveal_strlit("id");
    reveal_strlit("newId");
    reveal_strlit("error");
    reveal_strlit("skipped");
    reveal_strlit("updated");
    reveal_strlit("reason");
    reveal_strlit("jsonlCopied");
    reveal_strlit("mappingWritten");
    reveal_strlit("backup");
    reveal_strlit("sourceUid");
    reveal_strlit("targetUid");
    reveal_strlit("copied");
    reveal_strlit("errors");
    assert("skipped"@[0] != "updated"@[0]);
    assert("reason"@[0] != "backup"@[0]);
    assert("sourceUid"@[0] != "targetUid"@[0]);
    assert("copied"@[0] != "errors"@[0]);
}

/// What is sent out of a change of accounts names both accounts, holds the report of each
/// conversation that was dealt with, in order, and, where some failed, which and why.
pub proof fn law_a_switch_report_is_sent_whole(s: SwitchCopy)
    ensures
        ({
            let sent = object_tree(switch_fields(s@));
            &&& member(sent, "sourceUid"@) == Some(JsonTree::Text(s.source_uid@))
            &&& member(sent, "targetUid"@) == Some(JsonTree::Text(s.target_uid@))
            &&& member(sent, "copied"@) matches Some(JsonTree::Array(list)) && list.len()
                == s.copied@.len() && forall|i: int|
                0 <= i < list.len() ==> #[trigger] list[i] == object_tree(
                    copy_fields(s.copied@[i]@),
                )
            &&& s.errors@.len() == 0 ==> member(sent, "errors"@) is None
            &&& s.errors@.len() > 0 ==> (member(sent, "errors"@) matches Some(JsonTree::Array(list))
                && list.len() == s.errors@.len() && forall|i: int|
                0 <= i < list.len() ==> member(#[trigger] list[i], "id"@) == Some(
                    JsonTree::Text(s.errors@[i].0@),
                ) && member(list[i], "error"@) == Some(JsonTree::Text(s.errors@[i].1@)))
        }),
{
    let fields = switch_fields(s@);
    lemma_names();
    lemma_member(fields, 0);
    lemma_member(fields, 1);
    lemma_member(fields, 2);
    if s.errors@.len() == 0 {
        lemma_no_member(fields, "errors"@);
    } else {
        lemma_member(fields, 3);
        let list = fields[3].1->Array_0;
        assert forall|i: int| 0 <= i < list.len() implies member(#[trigger] list[i], "id"@) == Some(
            JsonTree::Text(s.errors@[i].0@),
        ) && member(list[i], "error"@) == Some(JsonTree::Text(s.errors@[i].1@)) by {
            let e = copy_error_fields(s@.errors[i]);
            assert(list[i] == object_tree(e));
            lemma_member(e, 0);
            lemma_member(e, 1);
        }
    }
}

/// The result of each conversation is kept, behind those that are there, in the list where it
/// belongs.
pub proof fn law_results_are_collected(
    before: SwitchCopy,
    after: SwitchCopy,
    id: Seq<char>,
    result: Result<CopyReport, String>,
)
    requires
        after@ == match result {
            Ok(report) => SwitchView { copied: before@.copied.push(report@), ..before@ },
            Err(e) => SwitchView { errors: before@.errors.push((id, e@)), ..before@ },
        },
    ensures
        after.source_uid@ == before.source_uid@,
        after.target_uid@ == before.target_uid@,
        after.copied@.len() == before.copied@.len() + if result is Ok {
            1int
        } else {
            0
        },
        after.errors@.len() == before.errors@.len() + if result is Ok {
            0int
        } else {
            1
        },
        forall|i: int|
            0 <= i < before.copied@.len() ==> (#[trigger] after.copied@[i])@ == before.copied@[i]@,
        forall|i: int|
            0 <= i < before.errors@.len() ==> (#[trigger] after.errors@[i]).0@
                == before.errors@[i].0@ && after.errors@[i].1@ == before.errors@[i].1@,
        result matches Ok(report) ==> after.copied@[before.copied@.len() as int]@ == report@,
        result matches Err(e) ==> after.errors@[before.errors@.len() as int].0@ == id
            && after.errors@[before.errors@.len() as int].1@ == e@,
{
    assert(before@.copied.len() == before.copied@.len());
    assert(before@.errors.len() == before.errors@.len());
    assert(after@.copied.len() == after.copied@.len());
    assert(after@.errors.len() == after.errors@.len());
    assert forall|i: int| 0 <= i < before.copied@.len() implies (#[trigger] after.copied@[i])@
        == before.copied@[i]@ by {
        assert(after@.copied[i] == after.copied@[i]@);
        assert(before@.copied[i] == before.copied@[i]@);
    }
    assert forall|i: int| 0 <= i < before.errors@.len() implies (#[trigger] after.errors@[i]).0@
        == before.errors@[i].0@ && after.errors@[i].1@ == before.errors@[i].1@ by {
        assert(after@.errors[i] == (after.errors@[i].0@, after.errors@[i].1@));
        assert(before@.errors[i] == (before.errors@[i].0@, before.errors@[i].1@));
    }
    match result {
        Ok(report) => {
            let n = before.copied@.len() as int;
            assert(after@.copied[n] == after.copied@[n]@);
        },
        Err(e) => {
            let n = before.errors@.len() as int;
            assert(after@.errors[n] == (after.errors@[n].0@, after.errors@[n].1@));
        },
    }
}

/// An account is the text that its description holds under `uid`, without white space around it;
/// anything else describes none. The account that is signed in is told in the same way, one level
/// deeper, and as it stands.
pub proof fn law_which_account_is_meant(account: JsonTree, auth: JsonTree)
    ensures
        member(account, "uid"@) matches Some(JsonTree::Text(uid)) ==> account_in(account)
            == trimmed(uid),
        !(member(account, "uid"@) matches Some(JsonTree::Text(_))) ==> account_in(account).len()
            == 0,
        member(auth, "account"@) == Some(account) ==> (member(account, "uid"@) matches Some(
            JsonTree::Text(uid),
        ) ==> signed_in(auth) == Some(uid)),
        member(auth, "account"@) == Some(account) && !(member(account, "uid"@) matches Some(
            JsonTree::Text(_),
        )) ==> signed_in(auth) is None,
        member(auth, "account"@) is None ==> signed_in(auth) is None,
{
}

// ---------------------------------------------------------------------------
// Statements
// ---------------------------------------------------------------------------

/// Whatever columns a database has, only the conversations of one account that are not deleted are
/// read, each with its id, directory, title and time; a list begins with the one that was changed
/// last. A column that the database lacks is read as nothing, or as zero.
pub proof fn law_which_rows_are_read(has_custom: bool, has_playground: bool)
    ensures
        list_statement(has_custom, has_playground) == "SELECT id, cwd, title, "@ + (if has_custom {
            "custom_title"@
        } else {
            "NULL"@
        }) + ", updated_at, "@ + (if has_playground {
            "is_playground"@
        } else {
            "0"@
        }) + " FROM sessions WHERE user_id = ?1 AND deleted_at IS NULL"@
            + " ORDER BY updated_at DESC"@,
        title_statement(has_custom) == "SELECT id, cwd, title, "@ + (if has_custom {
            "custom_title"@
        } else {
            "NULL"@
        }) + ", updated_at"@ + " FROM sessions WHERE user_id = ?1 AND deleted_at IS NULL"@,
        BODY_QUERY@ == "SELECT id, cwd, NULL, NULL, updated_at"@
            + " FROM sessions WHERE user_id = ?1 AND deleted_at IS NULL"@,
        COMPARED_QUERY@ == "SELECT id, cwd, title, custom_title, NULL"@
            + " FROM sessions WHERE user_id = ?1 AND deleted_at IS NULL"@,
{
    lemma_fixed_statements();
    reveal_strlit("SELECT id, cwd, title, ");
    reveal_strlit("custom_title");
    reveal_strlit("NULL");
    reveal_strlit(", updated_at, ");
    reveal_strlit(", updated_at");
    reveal_strlit("is_playground");
    reveal_strlit("0");
    reveal_strlit(" FROM sessions WHERE user_id = ?1 AND deleted_at IS NULL");
    reveal_strlit(" ORDER BY updated_at DESC");
    if has_custom {
        reveal_strlit(
            "SELECT id, cwd, title, custom_title, updated_at FROM sessions WHERE user_id = ?1 AND deleted_at IS NULL",
        );
        if has_playground {
            reveal_strlit(
                "SELECT id, cwd, title, custom_title, updated_at, is_playground FROM sessions WHERE user_id = ?1 AND deleted_at IS NULL ORDER BY updated_at DESC",
            );
        } else {
            reveal_strlit(
                "SELECT id, cwd, title, custom_title, updated_at, 0 FROM sessions WHERE user_id = ?1 AND deleted_at IS NULL ORDER BY updated_at DESC",
            );
        }
    } else {
        reveal_strlit(
            "SELECT id, cwd, title, NULL, updated_at FROM sessions WHERE user_id = ?1 AND deleted_at IS NULL",
        );
        if has_playground {
            reveal_strlit(
                "SELECT id, cwd, title, NULL, updated_at, is_playground FROM sessions WHERE user_id = ?1 AND deleted_at IS NULL ORDER BY updated_at DESC",
            );
        } else {
            reveal_strlit(
                "SELECT id, cwd, title, NULL, updated_at, 0 FROM sessions WHERE user_id = ?1 AND deleted_at IS NULL ORDER BY updated_at DESC",
            );
        }
    }
    assert(title_statement(has_custom) =~= "SELECT id, cwd, title, "@ + (if has_custom {
        "custom_title"@
    } else {
        "NULL"@
    }) + ", updated_at"@ + " FROM sessions WHERE user_id = ?1 AND deleted_at IS NULL"@);
    assert(list_statement(has_custom, has_playground) =~= "SELECT id, cwd, title, "@ + (if has_custom {
        "custom_title"@
    } else {
        "NULL"@
    }) + ", updated_at, "@ + (if has_playground {
        "is_playground"@
    } else {
        "0"@
    }) + " FROM sessions WHERE user_id = ?1 AND deleted_at IS NULL"@ + " ORDER BY updated_at DESC"@);
}

proof fn lemma_fixed_statements()
    ensures
        BODY_QUERY@ == "SELECT id, cwd, NULL, NULL, updated_at"@
            + " FROM sessions WHERE user_id = ?1 AND deleted_at IS NULL"@,
        COMPARED_QUERY@ == "SELECT id, cwd, title, custom_title, NULL"@
            + " FROM sessions WHERE user_id = ?1 AND deleted_at IS NULL"@,
{
    reveal_strlit(" FROM sessions WHERE user_id = ?1 AND deleted_at IS NULL");
    reveal_strlit("SELECT id, cwd, NULL, NULL, updated_at");
    reveal_strlit("SELECT id, cwd, title, custom_title, NULL");
    reveal_strlit(
        "SELECT id, cwd, NULL, NULL, updated_at FROM sessions WHERE user_id = ?1 AND deleted_at IS NULL",
    );
    reveal_strlit(
        "SELECT id, cwd, title, custom_title, NULL FROM sessions WHERE user_id = ?1 AND deleted_at IS NULL",
    );
    assert(BODY_QUERY@ =~= "SELECT id, cwd, NULL, NULL, updated_at"@
        + " FROM sessions WHERE user_id = ?1 AND deleted_at IS NULL"@);
    assert(COMPARED_QUERY@ =~= "SELECT id, cwd, title, custom_title, NULL"@
        + " FROM sessions WHERE user_id = ?1 AND deleted_at IS NULL"@);
}

// ---------------------------------------------------------------------------
// Rows
// ---------------------------------------------------------------------------

/// The statement that writes a row names its columns in order and has one mark for each.
pub proof fn law_a_row_is_written_with_one_mark_for_each_column(columns: Seq<Seq<char>>)
    requires
        columns.len() > 0,
    ensures
        exists|marks: Seq<char>|
            insert_statement(columns) == "INSERT OR REPLACE INTO sessions ("@ + separated(
                columns,
                ", "@,
            ) + ") VALUES ("@ + marks + ")"@ && #[trigger] marks.len() == 3 * columns.len() - 2
                && forall|k: int|
                0 <= k < marks.len() ==> #[trigger] marks[k] == if k % 3 == 0 {
                    '?'
                } else if k % 3 == 1 {
                    ','
                } else {
                    ' '
                },
{
    let marks = separated(question_marks(columns.len()), ", "@);
    lemma_marks(columns.len());
    assert(marks.len() == 3 * columns.len() - 2);
}

proof fn lemma_marks(n: nat)
    requires
        n > 0,
    ensures
        ({
            let marks = separated(question_marks(n), ", "@);
            &&& marks.len() == 3 * n - 2
            &&& forall|k: int|
                0 <= k < marks.len() ==> #[trigger] marks[k] == if k % 3 == 0 {
                    '?'
                } else if k % 3 == 1 {
                    ','
                } else {
                    ' '
                }
        }),
    decreases n,
{
    reveal_strlit(", ");
    reveal_strlit("?");
    let all = question_marks(n);
    let marks = separated(all, ", "@);
    if n > 1 {
        lemma_marks((n - 1) as nat);
        let short = question_marks((n - 1) as nat);
        assert(all.drop_last() =~= short);
        let before = separated(short, ", "@);
        assert(marks == before + ", "@ + "?"@);
        let m = before.len() as int;
        assert(m % 3 == 1);
        assert forall|k: int| 0 <= k < marks.len() implies #[trigger] marks[k] == if k % 3 == 0 {
            '?'
        } else if k % 3 == 1 {
            ','
        } else {
            ' '
        } by {
            if k < m {
                assert(marks[k] == before[k]);
            } else if k == m {
                assert(marks[k] == ", "@[0]);
            } else if k == m + 1 {
                assert(marks[k] == ", "@[1]);
            } else {
                assert(k == m + 2);
                assert(marks[k] == "?"@[0]);
            }
        }
    } else {
        assert(marks == all[0]);
    }
}

/// A row belongs to a channel exactly where its column `cwd` holds the directory of one.
pub proof fn law_which_rows_belong_to_a_channel(columns: Seq<String>, row: Seq<SqlValue>)
    requires
        columns.len() == row.len(),
    ensures
        is_channel_row(views(columns), value_views(row)) <==> exists|i: int|
            0 <= i < columns.len() && (#[trigger] columns[i])@ == "cwd"@ && (row[i] matches SqlValue::Text(
                cwd,
            ) && is_claw(cwd@)),
{
    let names = views(columns);
    let values = value_views(row);
    if is_channel_row(names, values) {
        let i = choose|i: int|
            0 <= i < names.len() && crate::session::rows::is_channel_cell(
                #[trigger] names[i],
                values[i],
            );
        assert(columns[i]@ == names[i] && values[i] == row[i]@);
    }
    if exists|i: int|
        0 <= i < columns.len() && (#[trigger] columns[i])@ == "cwd"@ && (row[i] matches SqlValue::Text(
            cwd,
        ) && is_claw(cwd@)) {
        let i = choose|i: int|
            0 <= i < columns.len() && (#[trigger] columns[i])@ == "cwd"@ && (row[i] matches SqlValue::Text(
                cwd,
            ) && is_claw(cwd@));
        assert(columns[i]@ == names[i] && values[i] == row[i]@);
    }
}

/// A row that is copied keeps every value but three: it gets the new id and the other account, and is
/// not deleted.
pub proof fn law_what_a_copied_row_holds(
    columns: Seq<String>,
    row: Seq<SqlValue>,
    copy: Seq<SqlValue>,
    new_id: Seq<char>,
    target_uid: Seq<char>,
)
    requires
        columns.len() == row.len(),
        value_views(copy) == copied_values(views(columns), value_views(row), new_id, target_uid),
    ensures
        copy.len() == row.len(),
        forall|i: int|
            0 <= i < row.len() ==> {
                let name = columns[i]@;
                &&& name == "id"@ ==> ((#[trigger] copy[i]) matches SqlValue::Text(s) && s@ == new_id)
                &&& name == "user_id"@ ==> (copy[i] matches SqlValue::Text(s) && s@ == target_uid)
                &&& name == "deleted_at"@ ==> copy[i] is Null
                &&& name != "id"@ && name != "user_id"@ && name != "deleted_at"@ ==> match (
                    row[i],
                    copy[i],
                ) {
                    (SqlValue::Null, SqlValue::Null) => true,
                    (SqlValue::Integer(a), SqlValue::Integer(b)) => a == b,
                    (SqlValue::Real(a), SqlValue::Real(b)) => a == b,
                    (SqlValue::Text(a), SqlValue::Text(b)) => a@ == b@,
                    (SqlValue::Blob(a), SqlValue::Blob(b)) => a@ == b@,
                    _ => false,
                }
            },
{
    reveal_strlit("id");
    reveal_strlit("user_id");
    reveal_strlit("deleted_at");
    assert("id"@.len() == 2 && "user_id"@.len() == 7 && "deleted_at"@.len() == 10);
    assert(value_views(copy).len() == copy.len());
    assert forall|i: int| 0 <= i < row.len() implies {
        let name = columns[i]@;
        &&& name == "id"@ ==> ((#[trigger] copy[i]) matches SqlValue::Text(s) && s@ == new_id)
        &&& name == "user_id"@ ==> (copy[i] matches SqlValue::Text(s) && s@ == target_uid)
        &&& name == "deleted_at"@ ==> copy[i] is Null
        &&& name != "id"@ && name != "user_id"@ && name != "deleted_at"@ ==> match (row[i], copy[i]) {
            (SqlValue::Null, SqlValue::Null) => true,
            (SqlValue::Integer(a), SqlValue::Integer(b)) => a == b,
            (SqlValue::Real(a), SqlValue::Real(b)) => a == b,
            (SqlValue::Text(a), SqlValue::Text(b)) => a@ == b@,
            (SqlValue::Blob(a), SqlValue::Blob(b)) => a@ == b@,
            _ => false,
        }
    } by {
        assert(value_views(copy)[i] == copy[i]@);
        assert(value_views(row)[i] == row[i]@);
        assert(views(columns)[i] == columns[i]@);
    }
}

/// The entry of a conversation is found under its id, goes to the channel of its account, and tells
/// when it was made.
pub proof fn law_what_an_entry_says(id: Seq<char>, uid: Seq<char>, now: i64, m: EdgeMapping)
    requires
        m@ == entry_for(id, uid, now),
    ensures
        m.session_id@ == id,
        m.conversation_id@ == id,
        m.created_at == now,
        m.msg_channel@.len() == 8 + uid.len(),
        m.msg_channel@.take(8) == "convmsg:"@,
        m.msg_channel@.skip(8) == uid,
        channel_of(uid) == m.msg_channel@,
{
    reveal_strlit("convmsg:");
    assert(m.msg_channel@.take(8) =~= "convmsg:"@);
    assert(m.msg_channel@.skip(8) =~= uid);
}

} // verus!
