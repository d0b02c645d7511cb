//! Copying a conversation to another account.
//!
//! The copy gets an id of its own, and the account it comes from is not touched. Where the other
//! account has the conversation already nothing is copied, so that copying to and fro does not pile
//! up duplicates; where it has one of the same name in the same directory, that one is brought up to
//! date instead, unless it is the newer one.

use crate::json::{
    field, field_views, get_text, has_distinct_names, json_array, json_bool, json_object,
    json_string, json_tree, object_tree, text_member, trees, JsonTree,
};
use crate::session::ids::{fresh_id, is_random_uuid};
use crate::session::rows::CHANNEL_MESSAGE;
use crate::session::stored::{
    copy_or_empty, shown_title, stored_views, Body, BodyView, StoredSession, StoredView,
};
use crate::session::titles::{
    is_claw, is_claw_workspace, neutral_body, normalize_cwd, normalize_jsonl, plain_cwd, NEUTRAL_ID,
};
use crate::text::{
    is_fresh, lemma_replaced_twice, replace_text, replaced, same_text, trim, trimmed, view_opt,
};
use serde_json::Value;
use vstd::prelude::*;

verus! {

broadcast use vstd::string::group_string_axioms;

// ---------------------------------------------------------------------------
// What the other account has
// ---------------------------------------------------------------------------

/// The conversation `t` is the same as `s`: it stands in the same directory, and their bodies agree
/// but for the ids. Where neither has a body they are the same if they have one name.
pub open spec fn is_equivalent(t: StoredView, s: StoredView) -> bool {
    &&& !is_claw(t.cwd)
    &&& plain_cwd(t.cwd) == plain_cwd(s.cwd)
    &&& match (s.body, t.body) {
        (BodyView::Text(a), BodyView::Text(b)) => neutral_body(b, t.id) == neutral_body(a, s.id),
        (BodyView::Text(_), _) => false,
        (_, BodyView::Absent) => shown_title(t) == shown_title(s),
        _ => false,
    }
}

/// Some conversation among `targets` is the same as `s`.
pub open spec fn has_equivalent(targets: Seq<StoredView>, s: StoredView) -> bool {
    exists|i: int| 0 <= i < targets.len() && is_equivalent(#[trigger] targets[i], s)
}

/// Whether some conversation among `targets`, those of an account that are not deleted, is the same
/// as `source`.
pub fn target_has_equivalent_session(targets: &Vec<StoredSession>, source: &StoredSession) -> (r:
    bool)
    ensures
        r == has_equivalent(stored_views(targets@), source@),
{
    let ghost all = stored_views(targets@);
    let source_cwd = normalize_cwd(copy_or_empty(&source.cwd).as_str());
    let source_title = source.display_title();
    let source_id = copy_or_empty(&source.id);
    let source_body = match &source.body {
        Body::Text(text) => Some(normalize_jsonl(text.as_str(), source_id.as_str())),
        _ => None,
    };
    let mut i: usize = 0;
    while i < targets.len()
        invariant
            i <= targets@.len(),
            all == stored_views(targets@),
            source_cwd@ == plain_cwd(source@.cwd),
            source_title@ == shown_title(source@),
            view_opt(source_body) == match source@.body {
                BodyView::Text(text) => Some(neutral_body(text, source@.id)),
                _ => None,
            },
            forall|k: int| 0 <= k < i ==> !is_equivalent(#[trigger] all[k], source@),
        decreases targets@.len() - i,
    {
        let t = &targets[i];
        assert(all[i as int] == t@);
        let cwd = copy_or_empty(&t.cwd);
        let same = if is_claw_workspace(cwd.as_str()) {
            false
        } else if normalize_cwd(cwd.as_str()) != source_cwd {
            false
        } else {
            match (&source_body, &t.body) {
                (Some(body), Body::Text(text)) => {
                    let id = copy_or_empty(&t.id);
                    normalize_jsonl(text.as_str(), id.as_str()) == *body
                },
                (Some(_), _) => false,
                (None, Body::Absent) => t.display_title() == source_title,
                (None, _) => false,
            }
        };
        if same {
            assert(is_equivalent(all[i as int], source@));
            return true;
        }
        i += 1;
    }
    false
}

/// `t` stands in the directory `cwd` and is shown under the name `title`.
pub open spec fn is_named(t: StoredView, cwd: Seq<char>, title: Seq<char>) -> bool {
    !is_claw(t.cwd) && plain_cwd(t.cwd) == cwd && shown_title(t) == title
}

/// The first conversation of that name in that directory.
pub open spec fn named_index(
    targets: Seq<StoredView>,
    cwd: Seq<char>,
    title: Seq<char>,
) -> Option<int>
    decreases targets.len(),
{
    if targets.len() == 0 {
        None
    } else {
        match named_index(targets.drop_last(), cwd, title) {
            Some(i) => Some(i),
            None => if is_named(targets.last(), cwd, title) {
                Some(targets.len() - 1)
            } else {
                None
            },
        }
    }
}

proof fn lemma_named_index_take(
    targets: Seq<StoredView>,
    cwd: Seq<char>,
    title: Seq<char>,
    n: int,
)
    requires
        0 <= n <= targets.len(),
        named_index(targets.take(n), cwd, title) is Some,
    ensures
        named_index(targets, cwd, title) == named_index(targets.take(n), cwd, title),
    decreases targets.len() - n,
{
    if n < targets.len() {
        assert(targets.take(n + 1).drop_last() =~= targets.take(n));
        lemma_named_index_take(targets, cwd, title, n + 1);
    } else {
        assert(targets.take(n) =~= targets);
    }
}

/// The id of the first conversation among `targets` with the name `title` in the directory `cwd`,
/// and when it was last changed. `cwd` has neither white space around it nor separators at its end.
pub fn find_target_session_by_cwd_title(
    targets: &Vec<StoredSession>,
    cwd: &str,
    title: &str,
) -> (r: Option<(String, i64)>)
    ensures
        match named_index(stored_views(targets@), cwd@, title@) {
            Some(i) => r matches Some(found) && found.0@ == stored_views(targets@)[i].id && found.1
                == stored_views(targets@)[i].updated_at,
            None => r is None,
        },
{
    let ghost all = stored_views(targets@);
    let mut i: usize = 0;
    while i < targets.len()
        invariant
            i <= targets@.len(),
            all == stored_views(targets@),
            named_index(all.take(i as int), cwd@, title@) is None,
        decreases targets@.len() - i,
    {
        let t = &targets[i];
        proof {
            assert(all.take(i + 1).drop_last() =~= all.take(i as int));
            assert(all.take(i + 1).last() == t@);
        }
        let its_cwd = copy_or_empty(&t.cwd);
        if !is_claw_workspace(its_cwd.as_str()) && same_text(
            normalize_cwd(its_cwd.as_str()).as_str(),
            cwd,
        ) && same_text(t.display_title().as_str(), title) {
            proof {
                lemma_named_index_take(all, cwd@, title@, i + 1);
            }
            return Some((copy_or_empty(&t.id), t.changed_at()));
        }
        i += 1;
    }
    assert(all.take(i as int) =~= all);
    None
}

// ---------------------------------------------------------------------------
// What is done
// ---------------------------------------------------------------------------

/// What becomes of the wish to copy a conversation.
pub enum Decision {
    /// There is no such conversation.
    NoSource,
    /// It belongs to a channel.
    Channel,
    /// The other account has it already.
    Equivalent,
    /// The other account has a newer one of the same name, with this id.
    Newer(Seq<char>),
    /// The other account has an older one of the same name, with this id, which is brought up to
    /// date.
    Update(Seq<char>),
    /// It is copied under a new id.
    Create,
}

/// What becomes of the wish to copy `source`. `equivalents` and `titled` are the conversations of
/// the other account, as they were read to be compared by their bodies and by their names.
pub open spec fn decided(
    source: Option<StoredView>,
    equivalents: Seq<StoredView>,
    titled: Seq<StoredView>,
) -> Decision {
    match source {
        None => Decision::NoSource,
        Some(s) => if is_claw(s.cwd) {
            Decision::Channel
        } else if has_equivalent(equivalents, s) {
            Decision::Equivalent
        } else {
            match named_index(titled, plain_cwd(s.cwd), shown_title(s)) {
                Some(i) => if s.updated_at > titled[i].updated_at {
                    Decision::Update(titled[i].id)
                } else {
                    Decision::Newer(titled[i].id)
                },
                None => Decision::Create,
            }
        },
    }
}

/// What is said where there is no conversation to copy.
pub const NO_SOURCE_MESSAGE: &'static str = "源会话不存在，无法复制";

/// Why nothing is copied where the other account has the conversation already.
pub const EQUIVALENT_REASON: &'static str = "目标账号已存在等价会话，跳过复制以避免重复";

/// Why nothing is copied where the other account has a newer one of the same name.
pub const NEWER_REASON: &'static str = "目标账号已有同名且更新的会话，跳过以避免覆盖";

/// What is said where one of the same name was brought up to date.
pub const UPDATED_REASON: &'static str = "目标账号已有同名会话，已同步为源端最新版本";

/// The contents of a conversation that may be missing.
pub open spec fn source_view(source: Option<&StoredSession>) -> Option<StoredView> {
    match source {
        Some(s) => Some(s@),
        None => None,
    }
}

/// What is to be done to copy a conversation.
#[derive(Debug)]
pub enum CopyPlan {
    /// Nothing: the other account has the conversation, or a newer one, under `target_id`.
    Skip { target_id: String, reason: &'static str },
    /// The row and the body are written under `target_id`.
    Write {
        target_id: String,
        /// The body to write, where there is one.
        body: Option<String>,
        /// The id is new, and the cloud has to learn of it.
        is_new: bool,
    },
}

/// The contents of a `CopyPlan`.
pub enum PlanView {
    Skip { target_id: Seq<char>, reason: Seq<char> },
    Write { target_id: Seq<char>, body: Option<Seq<char>>, is_new: bool },
}

impl View for CopyPlan {
    type V = PlanView;

    open spec fn view(&self) -> PlanView {
        match self {
            CopyPlan::Skip { target_id, reason } => PlanView::Skip {
                target_id: target_id@,
                reason: reason@,
            },
            CopyPlan::Write { target_id, body, is_new } => PlanView::Write {
                target_id: target_id@,
                body: view_opt(*body),
                is_new: *is_new,
            },
        }
    }
}

/// The body of `s` for a conversation with the id `id`: with every mention of its own id replaced.
pub open spec fn body_for(s: StoredView, id: Seq<char>) -> Option<Seq<char>> {
    match s.body {
        BodyView::Text(text) => Some(replaced(text, s.id, id)),
        _ => None,
    }
}

/// What is to be done to copy `source`, with `new_id` for a new conversation.
pub open spec fn planned(
    source: Option<StoredView>,
    equivalents: Seq<StoredView>,
    titled: Seq<StoredView>,
    new_id: Seq<char>,
) -> Result<PlanView, Seq<char>> {
    match decided(source, equivalents, titled) {
        Decision::NoSource => Err(NO_SOURCE_MESSAGE@),
        Decision::Channel => Err(CHANNEL_MESSAGE@),
        Decision::Equivalent => Ok(
            PlanView::Skip { target_id: Seq::empty(), reason: EQUIVALENT_REASON@ },
        ),
        Decision::Newer(id) => Ok(PlanView::Skip { target_id: id, reason: NEWER_REASON@ }),
        Decision::Update(id) => Ok(
            PlanView::Write { target_id: id, body: body_for(source->0, id), is_new: false },
        ),
        Decision::Create => Ok(
            PlanView::Write { target_id: new_id, body: body_for(source->0, new_id), is_new: true },
        ),
    }
}

/// The contents of a plan, or of what is said instead.
pub open spec fn plan_view(r: Result<CopyPlan, String>) -> Result<PlanView, Seq<char>> {
    match r {
        Ok(plan) => Ok(plan@),
        Err(e) => Err(e@),
    }
}

fn write_plan(source: &StoredSession, id: String, is_new: bool) -> (r: CopyPlan)
    ensures
        r@ == (PlanView::Write { target_id: id@, body: body_for(source@, id@), is_new }),
{
    let body = match &source.body {
        Body::Text(text) => {
            let own = copy_or_empty(&source.id);
            Some(replace_text(text.as_str(), own.as_str(), id.as_str()))
        },
        _ => None,
    };
    CopyPlan::Write { target_id: id, body, is_new }
}

/// What is to be done to copy `source` short of a new conversation: `None` where one is to be made.
fn plan_without_id(
    source: Option<&StoredSession>,
    equivalents: &Vec<StoredSession>,
    titled: &Vec<StoredSession>,
) -> (r: Option<Result<CopyPlan, String>>)
    ensures
        ({
            let s = source_view(source);
            let d = decided(s, stored_views(equivalents@), stored_views(titled@));
            &&& r is None == (d is Create)
            &&& r matches Some(plan) ==> forall|new_id: Seq<char>|
                plan_view(plan) == #[trigger] planned(
                    s,
                    stored_views(equivalents@),
                    stored_views(titled@),
                    new_id,
                )
        }),
{
    let s = match source {
        Some(s) => s,
        None => {
            return Some(Err(NO_SOURCE_MESSAGE.to_string()));
        },
    };
    let cwd = copy_or_empty(&s.cwd);
    if is_claw_workspace(cwd.as_str()) {
        return Some(Err(CHANNEL_MESSAGE.to_string()));
    }
    if target_has_equivalent_session(equivalents, s) {
        let none = String::new();
        assert(none@ =~= Seq::empty());
        return Some(Ok(CopyPlan::Skip { target_id: none, reason: EQUIVALENT_REASON }));
    }
    let title = s.display_title();
    match find_target_session_by_cwd_title(
        titled,
        normalize_cwd(cwd.as_str()).as_str(),
        title.as_str(),
    ) {
        Some((id, changed_at)) => if s.changed_at() > changed_at {
            Some(Ok(write_plan(s, id, false)))
        } else {
            Some(Ok(CopyPlan::Skip { target_id: id, reason: NEWER_REASON }))
        },
        None => None,
    }
}

/// What is to be done to copy `source`, with `new_id` for a new conversation. `equivalents` and
/// `titled` are the conversations of the other account, as they were read to be compared by their
/// bodies and by their names.
pub fn plan_copy(
    source: Option<&StoredSession>,
    equivalents: &Vec<StoredSession>,
    titled: &Vec<StoredSession>,
    new_id: String,
) -> (r: Result<CopyPlan, String>)
    ensures
        plan_view(r) == planned(
            source_view(source),
            stored_views(equivalents@),
            stored_views(titled@),
            new_id@,
        ),
{
    match plan_without_id(source, equivalents, titled) {
        Some(plan) => plan,
        None => match source {
            Some(s) => Ok(write_plan(s, new_id, true)),
            None => Err(NO_SOURCE_MESSAGE.to_string()),
        },
    }
}

/// What is to be done to copy `source`, with a random UUID for a new conversation.
pub fn copy_session_to_user(
    source: Option<&StoredSession>,
    equivalents: &Vec<StoredSession>,
    titled: &Vec<StoredSession>,
) -> (r: Result<CopyPlan, String>)
    ensures
        exists|new_id: Seq<char>|
            #![trigger is_random_uuid(new_id)]
            is_random_uuid(new_id) && plan_view(r) == planned(
                source_view(source),
                stored_views(equivalents@),
                stored_views(titled@),
                new_id,
            ),
{
    let new_id = fresh_id();
    let ghost id = new_id@;
    assert(is_random_uuid(id));
    plan_copy(source, equivalents, titled, new_id)
}

// ---------------------------------------------------------------------------
// Reports
// ---------------------------------------------------------------------------

/// What copying a conversation came to.
#[derive(Debug)]
pub enum CopyReport {
    Skipped { id: String, new_id: String, reason: &'static str },
    Updated { id: String, new_id: String, jsonl_copied: bool, backup: String },
    Created {
        id: String,
        new_id: String,
        jsonl_copied: bool,
        mapping_written: bool,
        backup: String,
    },
}

/// The contents of a `CopyReport`.
pub enum CopyView {
    Skipped { id: Seq<char>, new_id: Seq<char>, reason: Seq<char> },
    Updated { id: Seq<char>, new_id: Seq<char>, jsonl_copied: bool, backup: Seq<char> },
    Created {
        id: Seq<char>,
        new_id: Seq<char>,
        jsonl_copied: bool,
        mapping_written: bool,
        backup: Seq<char>,
    },
}

impl View for CopyReport {
    type V = CopyView;

    open spec fn view(&self) -> CopyView {
        match self {
            CopyReport::Skipped { id, new_id, reason } => CopyView::Skipped {
                id: id@,
                new_id: new_id@,
                reason: reason@,
            },
            CopyReport::Updated { id, new_id, jsonl_copied, backup } => CopyView::Updated {
                id: id@,
                new_id: new_id@,
                jsonl_copied: *jsonl_copied,
                backup: backup@,
            },
            CopyReport::Created { id, new_id, jsonl_copied, mapping_written, backup } =>
                CopyView::Created {
                id: id@,
                new_id: new_id@,
                jsonl_copied: *jsonl_copied,
                mapping_written: *mapping_written,
                backup: backup@,
            },
        }
    }
}

/// What is reported once `plan` was carried out for the conversation `id`: whether the body and the
/// entry in the cloud were written, and where the database was saved before.
pub open spec fn reported(
    id: Seq<char>,
    plan: PlanView,
    jsonl_copied: bool,
    mapping_written: bool,
    backup: Seq<char>,
) -> CopyView {
    match plan {
        PlanView::Skip { target_id, reason } => CopyView::Skipped { id, new_id: target_id, reason },
        PlanView::Write { target_id, body, is_new } => if is_new {
            CopyView::Created { id, new_id: target_id, jsonl_copied, mapping_written, backup }
        } else {
            CopyView::Updated { id, new_id: target_id, jsonl_copied, backup }
        },
    }
}

/// What is reported once `plan` was carried out for the conversation `id`.
pub fn report_copy(
    id: &str,
    plan: CopyPlan,
    jsonl_copied: bool,
    mapping_written: bool,
    backup: String,
) -> (r: CopyReport)
    ensures
        r@ == reported(id@, plan@, jsonl_copied, mapping_written, backup@),
{
    match plan {
        CopyPlan::Skip { target_id, reason } => CopyReport::Skipped {
            id: id.to_string(),
            new_id: target_id,
            reason,
        },
        CopyPlan::Write { target_id, is_new, .. } => if is_new {
            CopyReport::Created {
                id: id.to_string(),
                new_id: target_id,
                jsonl_copied,
                mapping_written,
                backup,
            }
        } else {
            CopyReport::Updated { id: id.to_string(), new_id: target_id, jsonl_copied, backup }
        },
    }
}

/// The members of a report.
pub open spec fn copy_fields(r: CopyView) -> Seq<(Seq<char>, JsonTree)> {
    match r {
        CopyView::Skipped { id, new_id, reason } => seq![
            ("id"@, JsonTree::Text(id)),
            ("newId"@, JsonTree::Text(new_id)),
            ("skipped"@, JsonTree::Bool(true)),
            ("reason"@, JsonTree::Text(reason)),
            ("jsonlCopied"@, JsonTree::Bool(false)),
            ("mappingWritten"@, JsonTree::Bool(false)),
            ("backup"@, JsonTree::Text(""@)),
        ],
        CopyView::Updated { id, new_id, jsonl_copied, backup } => seq![
            ("id"@, JsonTree::Text(id)),
            ("newId"@, JsonTree::Text(new_id)),
            ("skipped"@, JsonTree::Bool(false)),
            ("updated"@, JsonTree::Bool(true)),
            ("reason"@, JsonTree::Text(UPDATED_REASON@)),
            ("jsonlCopied"@, JsonTree::Bool(jsonl_copied)),
            ("mappingWritten"@, JsonTree::Bool(false)),
            ("backup"@, JsonTree::Text(backup)),
        ],
        CopyView::Created { id, new_id, jsonl_copied, mapping_written, backup } => seq![
            ("id"@, JsonTree::Text(id)),
            ("newId"@, JsonTree::Text(new_id)),
            ("skipped"@, JsonTree::Bool(false)),
            ("jsonlCopied"@, JsonTree::Bool(jsonl_copied)),
            ("mappingWritten"@, JsonTree::Bool(mapping_written)),
            ("backup"@, JsonTree::Text(backup)),
        ],
    }
}

/// The members of a report have different names.
proof fn lemma_copy_names(r: CopyView)
    ensures
        has_distinct_names(copy_fields(r)),
{
    reveal_strlit("id");
    reveal_strlit("newId");
    reveal_strlit("skipped");
    reveal_strlit("updated");
    reveal_strlit("reason");
    reveal_strlit("jsonlCopied");
    reveal_strlit("mappingWritten");
    reveal_strlit("backup");
    assert("id"@.len() == 2);
    assert("newId"@.len() == 5);
    assert("skipped"@.len() == 7);
    assert("updated"@.len() == 7);
    assert("reason"@.len() == 6);
    assert("jsonlCopied"@.len() == 11);
    assert("mappingWritten"@.len() == 14);
    assert("backup"@.len() == 6);
    assert("skipped"@[0] != "updated"@[0]);
    assert("reason"@[0] != "backup"@[0]);
}

/// A report as it is sent out.
pub fn copy_value(report: &CopyReport) -> (r: Value)
    ensures
        json_tree(r) == object_tree(copy_fields(report@)),
{
    let mut fields: Vec<(String, Value)> = Vec::new();
    match report {
        CopyReport::Skipped { id, new_id, reason } => {
            fields.push(field("id", json_string(id.as_str())));
            fields.push(field("newId", json_string(new_id.as_str())));
            fields.push(field("skipped", json_bool(true)));
            fields.push(field("reason", json_string(*reason)));
            fields.push(field("jsonlCopied", json_bool(false)));
            fields.push(field("mappingWritten", json_bool(false)));
            fields.push(field("backup", json_string("")));
        },
        CopyReport::Updated { id, new_id, jsonl_copied, backup } => {
            fields.push(field("id", json_string(id.as_str())));
            fields.push(field("newId", json_string(new_id.as_str())));
            fields.push(field("skipped", json_bool(false)));
            fields.push(field("updated", json_bool(true)));
            fields.push(field("reason", json_string(UPDATED_REASON)));
            fields.push(field("jsonlCopied", json_bool(*jsonl_copied)));
            fields.push(field("mappingWritten", json_bool(false)));
            fields.push(field("backup", json_string(backup.as_str())));
        },
        CopyReport::Created { id, new_id, jsonl_copied, mapping_written, backup } => {
            fields.push(field("id", json_string(id.as_str())));
            fields.push(field("newId", json_string(new_id.as_str())));
            fields.push(field("skipped", json_bool(false)));
            fields.push(field("jsonlCopied", json_bool(*jsonl_copied)));
            fields.push(field("mappingWritten", json_bool(*mapping_written)));
            fields.push(field("backup", json_string(backup.as_str())));
        },
    }
    proof {
        assert(field_views(fields@) =~= copy_fields(report@));
        lemma_copy_names(report@);
    }
    json_object(fields)
}

// ---------------------------------------------------------------------------
// Copying on a change of accounts
// ---------------------------------------------------------------------------

/// What copying conversations on a change of accounts has come to so far.
#[derive(Debug)]
pub struct SwitchCopy {
    pub source_uid: String,
    pub target_uid: String,
    pub copied: Vec<CopyReport>,
    /// The conversations that could not be copied, with the reasons.
    pub errors: Vec<(String, String)>,
}

/// The contents of a `SwitchCopy`.
pub struct SwitchView {
    pub source_uid: Seq<char>,
    pub target_uid: Seq<char>,
    pub copied: Seq<CopyView>,
    pub errors: Seq<(Seq<char>, Seq<char>)>,
}

impl View for SwitchCopy {
    type V = SwitchView;

    open spec fn view(&self) -> SwitchView {
        SwitchView {
            source_uid: self.source_uid@,
            target_uid: self.target_uid@,
            copied: Seq::new(self.copied@.len(), |i: int| self.copied@[i]@),
            errors: Seq::new(
                self.errors@.len(),
                |i: int| (self.errors@[i].0@, self.errors@[i].1@),
            ),
        }
    }
}

/// The account that a description names, without white space around it.
pub open spec fn account_in(account: JsonTree) -> Seq<char> {
    match text_member(account, "uid"@) {
        Some(uid) => trimmed(uid),
        None => Seq::empty(),
    }
}

/// Begins to copy conversations on a change of accounts: from the account that is signed in to the
/// one that `target_acc` describes. There is nothing to copy where either is unknown or both are
/// the same.
pub fn copy_sessions_for_switch(target_acc: &Value, source_uid: Option<String>) -> (r: Option<
    SwitchCopy,
>)
    ensures
        ({
            let target = account_in(json_tree(*target_acc));
            match view_opt(source_uid) {
                Some(source) => if target.len() == 0 || source == target {
                    r is None
                } else {
                    r matches Some(begun) && begun@ == SwitchView {
                        source_uid: source,
                        target_uid: target,
                        copied: Seq::empty(),
                        errors: Seq::empty(),
                    }
                },
                None => r is None,
            }
        }),
{
    let target_uid = match get_text(target_acc, "uid") {
        Some(uid) => trim(uid.as_str()),
        None => String::new(),
    };
    if target_uid.as_str().is_empty() {
        return None;
    }
    match source_uid {
        Some(source_uid) => if source_uid == target_uid {
            None
        } else {
            let begun = SwitchCopy {
                source_uid,
                target_uid,
                copied: Vec::new(),
                errors: Vec::new(),
            };
            assert(begun@.copied =~= Seq::empty());
            assert(begun@.errors =~= Seq::empty());
            Some(begun)
        },
        None => None,
    }
}

impl SwitchCopy {
    /// Takes note of how the conversation `id` fared.
    pub fn add_result(&mut self, id: &str, result: Result<CopyReport, String>)
        ensures
            final(self)@ == match result {
                Ok(report) => SwitchView { copied: old(self)@.copied.push(report@), ..old(self)@ },
                Err(e) => SwitchView { errors: old(self)@.errors.push((id@, e@)), ..old(self)@ },
            },
    {
        match result {
            Ok(report) => {
                let ghost added = report@;
                self.copied.push(report);
                assert(self@.copied =~= old(self)@.copied.push(added));
                assert(self@.errors =~= old(self)@.errors);
            },
            Err(e) => {
                let ghost added = (id@, e@);
                self.errors.push((id.to_string(), e));
                assert(self@.errors =~= old(self)@.errors.push(added));
                assert(self@.copied =~= old(self)@.copied);
            },
        }
    }
}

/// The members of what is said of a conversation that could not be copied.
pub open spec fn copy_error_fields(e: (Seq<char>, Seq<char>)) -> Seq<(Seq<char>, JsonTree)> {
    seq![("id"@, JsonTree::Text(e.0)), ("error"@, JsonTree::Text(e.1))]
}

/// The two members have different names.
proof fn lemma_copy_error_names(e: (Seq<char>, Seq<char>))
    ensures
        has_distinct_names(copy_error_fields(e)),
{
    reveal_strlit("id");
    reveal_strlit("error");
    assert("id"@.len() == 2);
    assert("error"@.len() == 5);
}

/// The members of the whole report. Without errors it has no list of them.
pub open spec fn switch_fields(s: SwitchView) -> Seq<(Seq<char>, JsonTree)> {
    let common = seq![
        ("sourceUid"@, JsonTree::Text(s.source_uid)),
        ("targetUid"@, JsonTree::Text(s.target_uid)),
        (
            "copied"@,
            JsonTree::Array(
                Seq::new(s.copied.len(), |i: int| object_tree(copy_fields(s.copied[i]))),
            ),
        ),
    ];
    if s.errors.len() == 0 {
        common
    } else {
        common.push(
            (
                "errors"@,
                JsonTree::Array(
                    Seq::new(s.errors.len(), |i: int| object_tree(copy_error_fields(s.errors[i]))),
                ),
            ),
        )
    }
}

/// The members of the whole report have different names.
proof fn lemma_switch_names(s: SwitchView)
    ensures
        has_distinct_names(switch_fields(s)),
{
    reveal_strlit("sourceUid");
    reveal_strlit("targetUid");
    reveal_strlit("copied");
    reveal_strlit("errors");
    assert("sourceUid"@.len() == 9);
    assert("targetUid"@.len() == 9);
    assert("copied"@.len() == 6);
    assert("errors"@.len() == 6);
    assert("sourceUid"@[0] != "targetUid"@[0]);
    assert("copied"@[0] != "errors"@[0]);
}

fn copy_error_value(e: &(String, String)) -> (r: Value)
    ensures
        json_tree(r) == object_tree(copy_error_fields((e.0@, e.1@))),
{
    let mut fields: Vec<(String, Value)> = Vec::new();
    fields.push(field("id", json_string(e.0.as_str())));
    fields.push(field("error", json_string(e.1.as_str())));
    proof {
        assert(field_views(fields@) =~= copy_error_fields((e.0@, e.1@)));
        lemma_copy_error_names((e.0@, e.1@));
    }
    json_object(fields)
}

/// The whole report as it is sent out.
pub fn switch_value(s: &SwitchCopy) -> (r: Value)
    ensures
        json_tree(r) == object_tree(switch_fields(s@)),
{
    let mut copied: Vec<Value> = Vec::new();
    let mut i: usize = 0;
    while i < s.copied.len()
        invariant
            i <= s.copied@.len(),
            copied@.len() == i,
            forall|k: int|
                0 <= k < i ==> json_tree(#[trigger] copied@[k]) == object_tree(
                    copy_fields(s.copied@[k]@),
                ),
        decreases s.copied@.len() - i,
    {
        copied.push(copy_value(&s.copied[i]));
        i += 1;
    }
    let ghost copied_trees = trees(copied@);
    assert(copied_trees =~= Seq::new(
        s@.copied.len(),
        |i: int| object_tree(copy_fields(s@.copied[i])),
    ));
    let mut fields: Vec<(String, Value)> = Vec::new();
    fields.push(field("sourceUid", json_string(s.source_uid.as_str())));
    fields.push(field("targetUid", json_string(s.target_uid.as_str())));
    fields.push(field("copied", json_array(copied)));
    if s.errors.len() > 0 {
        let mut errors: Vec<Value> = Vec::new();
        let mut k: usize = 0;
        while k < s.errors.len()
            invariant
                k <= s.errors@.len(),
                errors@.len() == k,
                forall|m: int|
                    0 <= m < k ==> json_tree(#[trigger] errors@[m]) == object_tree(
                        copy_error_fields((s.errors@[m].0@, s.errors@[m].1@)),
                    ),
            decreases s.errors@.len() - k,
        {
            errors.push(copy_error_value(&s.errors[k]));
            k += 1;
        }
        let ghost error_trees = trees(errors@);
        assert(error_trees =~= Seq::new(
            s@.errors.len(),
            |i: int| object_tree(copy_error_fields(s@.errors[i])),
        ));
        fields.push(field("errors", json_array(errors)));
    }
    proof {
        assert(field_views(fields@) =~= switch_fields(s@));
        lemma_switch_names(s@);
    }
    json_object(fields)
}

// ---------------------------------------------------------------------------
// Laws
// ---------------------------------------------------------------------------

/// The conversation that a plan to write `s` under the id `id` leaves in the other account: the row
/// keeps all but the id, and the body, where there is one, names the new id in place of the old one.
pub open spec fn copied_session(s: StoredView, id: Seq<char>) -> StoredView {
    StoredView {
        id,
        body: match body_for(s, id) {
            Some(text) => BodyView::Text(text),
            None => BodyView::Absent,
        },
        ..s
    }
}

/// The id does not turn up in the body of `s` but where it takes the place of the old one. Random
/// ids are chosen for that.
pub open spec fn is_fresh_for(s: StoredView, id: Seq<char>) -> bool {
    s.body matches BodyView::Text(text) ==> id.len() > 0 && is_fresh(text, s.id, id)
}

/// A copy is the same as the conversation that it was made of, and the other way round, unless the
/// body of that one could not be read.
pub proof fn law_a_copy_is_equivalent(s: StoredView, id: Seq<char>)
    requires
        !is_claw(s.cwd),
        is_fresh_for(s, id),
    ensures
        is_equivalent(copied_session(s, id), s),
        !(s.body is Unreadable) ==> is_equivalent(s, copied_session(s, id)),
{
    if let BodyView::Text(text) = s.body {
        lemma_replaced_twice(text, s.id, id, NEUTRAL_ID@);
    }
}

/// Copying a conversation a second time is skipped, whatever else the other account holds; so is
/// copying the copy back to where it came from, unless the body that is there cannot be read.
/// Copying to and fro piles nothing up.
pub proof fn law_copying_again_is_skipped(
    s: StoredView,
    id: Seq<char>,
    there: Seq<StoredView>,
    here: Seq<StoredView>,
    titled: Seq<StoredView>,
)
    requires
        !is_claw(s.cwd),
        is_fresh_for(s, id),
        there.contains(copied_session(s, id)),
        here.contains(s),
    ensures
        decided(Some(s), there, titled) is Equivalent,
        !(s.body is Unreadable) ==> decided(Some(copied_session(s, id)), here, titled) is Equivalent,
{
    law_a_copy_is_equivalent(s, id);
    let i = choose|i: int| 0 <= i < there.len() && there[i] == copied_session(s, id);
    assert(is_equivalent(there[i], s));
    let j = choose|j: int| 0 <= j < here.len() && here[j] == s;
    if !(s.body is Unreadable) {
        assert(is_equivalent(here[j], copied_session(s, id)));
    }
}

/// `named_index` finds a conversation of that name wherever there is one.
pub proof fn lemma_named_index(targets: Seq<StoredView>, cwd: Seq<char>, title: Seq<char>)
    ensures
        named_index(targets, cwd, title) matches Some(i) ==> 0 <= i < targets.len() && is_named(
            targets[i],
            cwd,
            title,
        ),
        named_index(targets, cwd, title) is None ==> forall|i: int|
            0 <= i < targets.len() ==> !is_named(#[trigger] targets[i], cwd, title),
    decreases targets.len(),
{
    if targets.len() > 0 {
        let shorter = targets.drop_last();
        lemma_named_index(shorter, cwd, title);
        if named_index(targets, cwd, title) is None {
            assert forall|i: int| 0 <= i < targets.len() implies !is_named(
                #[trigger] targets[i],
                cwd,
                title,
            ) by {
                if i < shorter.len() {
                    assert(!is_named(shorter[i], cwd, title));
                }
            }
        }
    }
}

/// A new conversation is made only where the other account has none of that name in that directory:
/// copying never gives an account two conversations of one name in one directory.
pub proof fn law_copying_makes_no_second_of_a_name(
    source: Option<StoredView>,
    equivalents: Seq<StoredView>,
    titled: Seq<StoredView>,
    i: int,
)
    requires
        decided(source, equivalents, titled) is Create,
        0 <= i < titled.len(),
    ensures
        source is Some,
        !is_named(titled[i], plain_cwd(source->0.cwd), shown_title(source->0)),
{
    lemma_named_index(titled, plain_cwd(source->0.cwd), shown_title(source->0));
}

/// A conversation of the other account is written over only by a newer one of the same name in the
/// same directory; and it is the other account's own, so that what is copied stays as it is.
pub proof fn law_only_an_older_namesake_is_updated(
    source: Option<StoredView>,
    equivalents: Seq<StoredView>,
    titled: Seq<StoredView>,
)
    requires
        decided(source, equivalents, titled) is Update,
    ensures
        source is Some,
        exists|i: int|
            0 <= i < titled.len() && is_named(
                #[trigger] titled[i],
                plain_cwd(source->0.cwd),
                shown_title(source->0),
            ) && titled[i].updated_at < source->0.updated_at && decided(source, equivalents, titled)
                == Decision::Update(titled[i].id),
{
    lemma_named_index(titled, plain_cwd(source->0.cwd), shown_title(source->0));
}

} // verus!
