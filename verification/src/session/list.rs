//! The conversations of an account, as they are shown.

use crate::json::{
    field, field_views, has_distinct_names, json_array, json_bool, json_integer, json_object,
    json_string, json_tree, object_tree, trees, JsonTree,
};
use crate::session::stored::{copy_or_empty, shown_title, StoredSession};
use crate::session::titles::{is_claw, is_claw_workspace};
use serde_json::Value;
use vstd::prelude::*;

verus! {

broadcast use vstd::string::group_string_axioms;

/// A conversation that can be shown.
#[derive(Debug)]
pub struct ListRow {
    pub session: StoredSession,
    pub is_playground: Option<i64>,
    /// The file of its body was found.
    pub has_history: bool,
}

/// A conversation as it is shown.
#[derive(Debug)]
pub struct ListedSession {
    pub id: String,
    pub title: String,
    pub cwd: String,
    pub updated_at: i64,
    pub has_history: bool,
    pub is_playground: bool,
}

/// The contents of a `ListedSession`.
pub struct ListedView {
    pub id: Seq<char>,
    pub title: Seq<char>,
    pub cwd: Seq<char>,
    pub updated_at: int,
    pub has_history: bool,
    pub is_playground: bool,
}

impl View for ListedSession {
    type V = ListedView;

    open spec fn view(&self) -> ListedView {
        ListedView {
            id: self.id@,
            title: self.title@,
            cwd: self.cwd@,
            updated_at: self.updated_at as int,
            has_history: self.has_history,
            is_playground: self.is_playground,
        }
    }
}

/// The contents of a list of conversations.
pub open spec fn listed_views(list: Seq<ListedSession>) -> Seq<ListedView> {
    Seq::new(list.len(), |i: int| list[i]@)
}

/// A conversation as it is shown.
pub open spec fn shown_row(row: ListRow) -> ListedView {
    ListedView {
        id: row.session@.id,
        title: shown_title(row.session@),
        cwd: row.session@.cwd,
        updated_at: row.session@.updated_at,
        has_history: row.has_history,
        is_playground: row.is_playground matches Some(n) && n != 0,
    }
}

/// The conversations that are shown: all but those that belong to a channel, in the same order.
pub open spec fn shown_rows(rows: Seq<ListRow>) -> Seq<ListedView>
    decreases rows.len(),
{
    if rows.len() == 0 {
        Seq::empty()
    } else if is_claw(rows.last().session@.cwd) {
        shown_rows(rows.drop_last())
    } else {
        shown_rows(rows.drop_last()).push(shown_row(rows.last()))
    }
}

/// The conversations of an account as they are shown. `rows` are those that are not deleted, where
/// they could be read.
pub fn list_sessions_for_user(rows: Option<&Vec<ListRow>>) -> (r: Vec<ListedSession>)
    ensures
        listed_views(r@) == match rows {
            Some(rows) => shown_rows(rows@),
            None => Seq::empty(),
        },
{
    let mut out: Vec<ListedSession> = Vec::new();
    let found = match rows {
        Some(rows) => rows,
        None => {
            assert(listed_views(out@) =~= Seq::empty());
            return out;
        },
    };
    let mut i: usize = 0;
    assert(listed_views(out@) =~= shown_rows(found@.take(0)));
    while i < found.len()
        invariant
            i <= found@.len(),
            listed_views(out@) == shown_rows(found@.take(i as int)),
        decreases found@.len() - i,
    {
        let ghost before = listed_views(out@);
        let row = &found[i];
        proof {
            assert(found@.take(i + 1).drop_last() =~= found@.take(i as int));
            assert(found@.take(i + 1).last() == *row);
        }
        let cwd = copy_or_empty(&row.session.cwd);
        if !is_claw_workspace(cwd.as_str()) {
            let is_playground = match row.is_playground {
                Some(n) => n != 0,
                None => false,
            };
            let shown = ListedSession {
                id: copy_or_empty(&row.session.id),
                title: row.session.display_title(),
                cwd,
                updated_at: row.session.changed_at(),
                has_history: row.has_history,
                is_playground,
            };
            let ghost added = shown@;
            out.push(shown);
            assert(listed_views(out@) =~= before.push(added));
        }
        i += 1;
    }
    assert(found@.take(i as int) =~= found@);
    out
}

/// The members of a conversation that is shown.
pub open spec fn listed_fields(s: ListedSession) -> Seq<(Seq<char>, JsonTree)> {
    seq![
        ("id"@, JsonTree::Text(s.id@)),
        ("title"@, JsonTree::Text(s.title@)),
        ("cwd"@, JsonTree::Text(s.cwd@)),
        ("updatedAt"@, JsonTree::Number(Some(s.updated_at))),
        ("hasHistory"@, JsonTree::Bool(s.has_history)),
        ("isPlayground"@, JsonTree::Bool(s.is_playground)),
    ]
}

/// The members of a conversation have different names.
proof fn lemma_listed_names(s: ListedSession)
    ensures
        has_distinct_names(listed_fields(s)),
{
    reveal_strlit("id");
    reveal_strlit("title");
    reveal_strlit("cwd");
    reveal_strlit("updatedAt");
    reveal_strlit("hasHistory");
    reveal_strlit("isPlayground");
    assert("id"@.len() == 2);
    assert("title"@.len() == 5);
    assert("cwd"@.len() == 3);
    assert("updatedAt"@.len() == 9);
    assert("hasHistory"@.len() == 10);
    assert("isPlayground"@.len() == 12);
}

fn listed_value(s: &ListedSession) -> (r: Value)
    ensures
        json_tree(r) == object_tree(listed_fields(*s)),
{
    let mut fields: Vec<(String, Value)> = Vec::new();
    fields.push(field("id", json_string(s.id.as_str())));
    fields.push(field("title", json_string(s.title.as_str())));
    fields.push(field("cwd", json_string(s.cwd.as_str())));
    fields.push(field("updatedAt", json_integer(s.updated_at)));
    fields.push(field("hasHistory", json_bool(s.has_history)));
    fields.push(field("isPlayground", json_bool(s.is_playground)));
    proof {
        assert(field_views(fields@) =~= listed_fields(*s));
        lemma_listed_names(*s);
    }
    json_object(fields)
}

/// The conversations as they are sent out.
pub fn list_value(list: &Vec<ListedSession>) -> (r: Value)
    ensures
        json_tree(r) == JsonTree::Array(
            Seq::new(list@.len(), |i: int| object_tree(listed_fields(list@[i]))),
        ),
{
    let mut items: Vec<Value> = Vec::new();
    let mut i: usize = 0;
    while i < list.len()
        invariant
            i <= list@.len(),
            items@.len() == i,
            forall|k: int|
                0 <= k < i ==> json_tree(#[trigger] items@[k]) == object_tree(
                    listed_fields(list@[k]),
                ),
        decreases list@.len() - i,
    {
        items.push(listed_value(&list[i]));
        i += 1;
    }
    assert(trees(items@) =~= Seq::new(
        list@.len(),
        |i: int| object_tree(listed_fields(list@[i])),
    ));
    json_array(items)
}

} // verus!
