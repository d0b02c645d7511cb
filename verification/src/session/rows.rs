//! The rows that a copy writes.

use crate::session::titles::{is_claw, is_claw_workspace};
use crate::text::{concat2, same_text, separate, separated, views};
use vstd::prelude::*;

verus! {

broadcast use vstd::string::group_string_axioms;

/// A value of a database.
#[derive(Debug, PartialEq)]
pub enum SqlValue {
    Null,
    Integer(i64),
    /// A number with a fraction, as its 64 bits.
    Real(u64),
    Text(String),
    Blob(Vec<u8>),
}

/// The contents of an `SqlValue`.
pub enum SqlView {
    Null,
    Integer(i64),
    Real(u64),
    Text(Seq<char>),
    Blob(Seq<u8>),
}

impl View for SqlValue {
    type V = SqlView;

    open spec fn view(&self) -> SqlView {
        match self {
            SqlValue::Null => SqlView::Null,
            SqlValue::Integer(n) => SqlView::Integer(*n),
            SqlValue::Real(bits) => SqlView::Real(*bits),
            SqlValue::Text(s) => SqlView::Text(s@),
            SqlValue::Blob(b) => SqlView::Blob(b@),
        }
    }
}

impl Clone for SqlValue {
    fn clone(&self) -> (r: Self)
        ensures
            r@ == self@,
    {
        match self {
            SqlValue::Null => SqlValue::Null,
            SqlValue::Integer(n) => SqlValue::Integer(*n),
            SqlValue::Real(bits) => SqlValue::Real(*bits),
            SqlValue::Text(s) => SqlValue::Text(s.clone()),
            SqlValue::Blob(b) => {
                let copy = b.clone();
                assert(copy@ =~= b@);
                SqlValue::Blob(copy)
            },
        }
    }
}

/// The contents of the values of a row.
pub open spec fn value_views(values: Seq<SqlValue>) -> Seq<SqlView> {
    Seq::new(values.len(), |i: int| values[i]@)
}

/// The table of conversations: its columns, and the row of the conversation that is copied, where
/// there is one.
#[derive(Debug)]
pub struct SourceTable {
    pub columns: Vec<String>,
    pub row: Option<Vec<SqlValue>>,
}

/// A row to be written.
#[derive(Debug)]
pub struct RowInsert {
    pub sql: String,
    pub values: Vec<SqlValue>,
}

/// The value of a column in the copy: a new id, the account that gets the copy, not deleted, and
/// everything else as it was.
pub open spec fn copied_value(
    column: Seq<char>,
    value: SqlView,
    new_id: Seq<char>,
    target_uid: Seq<char>,
) -> SqlView {
    if column == "id"@ {
        SqlView::Text(new_id)
    } else if column == "user_id"@ {
        SqlView::Text(target_uid)
    } else if column == "deleted_at"@ {
        SqlView::Null
    } else {
        value
    }
}

/// The values of the copy of a row.
pub open spec fn copied_values(
    columns: Seq<Seq<char>>,
    values: Seq<SqlView>,
    new_id: Seq<char>,
    target_uid: Seq<char>,
) -> Seq<SqlView> {
    Seq::new(
        columns.len(),
        |i: int| copied_value(columns[i], values[i], new_id, target_uid),
    )
}

/// A text that belongs to a channel stands in the column of the working directory.
pub open spec fn is_channel_cell(column: Seq<char>, value: SqlView) -> bool {
    column == "cwd"@ && (value matches SqlView::Text(cwd) && is_claw(cwd))
}

/// The conversation of a row belongs to a channel.
pub open spec fn is_channel_row(columns: Seq<Seq<char>>, values: Seq<SqlView>) -> bool {
    exists|i: int| 0 <= i < columns.len() && is_channel_cell(#[trigger] columns[i], values[i])
}

/// `n` question marks.
pub open spec fn question_marks(n: nat) -> Seq<Seq<char>> {
    Seq::new(n, |i: int| "?"@)
}

/// The statement that writes a row with these columns, in place of any with its id.
pub open spec fn insert_statement(columns: Seq<Seq<char>>) -> Seq<char> {
    "INSERT OR REPLACE INTO sessions ("@ + separated(columns, ", "@) + ") VALUES ("@ + separated(
        question_marks(columns.len()),
        ", "@,
    ) + ")"@
}

/// What is said of a conversation that belongs to a channel.
pub const CHANNEL_MESSAGE: &'static str = "Claw 工作区绑定当前账号渠道，不支持复制";

fn insert_sql(columns: &Vec<String>) -> (r: String)
    ensures
        r@ == insert_statement(views(columns@)),
{
    let mut marks: Vec<String> = Vec::new();
    let mut i: usize = 0;
    while i < columns.len()
        invariant
            i <= columns@.len(),
            marks@.len() == i,
            forall|k: int| 0 <= k < i ==> (#[trigger] marks@[k])@ == "?"@,
        decreases columns@.len() - i,
    {
        marks.push("?".to_string());
        i += 1;
    }
    assert(views(marks@) =~= question_marks(columns@.len()));
    let mut sql = concat2("INSERT OR REPLACE INTO sessions (", separate(columns, ", ").as_str());
    sql.append(") VALUES (");
    sql.append(separate(&marks, ", ").as_str());
    sql.append(")");
    sql
}

fn copy_value(column: &str, value: &SqlValue, new_id: &str, target_uid: &str) -> (r: SqlValue)
    ensures
        r@ == copied_value(column@, value@, new_id@, target_uid@),
{
    if same_text(column, "id") {
        SqlValue::Text(new_id.to_string())
    } else if same_text(column, "user_id") {
        SqlValue::Text(target_uid.to_string())
    } else if same_text(column, "deleted_at") {
        SqlValue::Null
    } else {
        value.clone()
    }
}

fn channel_cell(column: &str, value: &SqlValue) -> (r: bool)
    ensures
        r == is_channel_cell(column@, value@),
{
    match value {
        SqlValue::Text(cwd) => same_text(column, "cwd") && is_claw_workspace(cwd.as_str()),
        _ => false,
    }
}

/// The row that a copy writes: `None` where there is no table, or no row, to copy. A conversation
/// that belongs to a channel is not copied.
pub fn insert_session_copy(
    table: Option<&SourceTable>,
    new_id: &str,
    target_uid: &str,
) -> (r: Result<Option<RowInsert>, String>)
    requires
        table matches Some(t) ==> (t.row matches Some(row) ==> row@.len() == t.columns@.len()),
    ensures
        match table {
            None => r == Ok::<Option<RowInsert>, String>(None),
            Some(t) => match t.row {
                None => r == Ok::<Option<RowInsert>, String>(None),
                Some(row) => {
                    let columns = views(t.columns@);
                    let values = value_views(row@);
                    if is_channel_row(columns, values) {
                        r matches Err(e) && e@ == CHANNEL_MESSAGE@
                    } else {
                        r matches Ok(Some(insert)) && insert.sql@ == insert_statement(columns)
                            && value_views(insert.values@) == copied_values(
                            columns,
                            values,
                            new_id@,
                            target_uid@,
                        )
                    }
                },
            },
        },
{
    let source = match table {
        Some(t) => t,
        None => {
            return Ok(None);
        },
    };
    let row = match &source.row {
        Some(row) => row,
        None => {
            return Ok(None);
        },
    };
    let ghost columns = views(source.columns@);
    let ghost cells = value_views(row@);
    let mut values: Vec<SqlValue> = Vec::new();
    let mut i: usize = 0;
    while i < row.len()
        invariant
            i <= row@.len(),
            row@.len() == source.columns@.len(),
            table == Some(source),
            source.row == Some(*row),
            columns == views(source.columns@),
            cells == value_views(row@),
            values@.len() == i,
            forall|k: int| 0 <= k < i ==> !is_channel_cell(#[trigger] columns[k], cells[k]),
            forall|k: int|
                0 <= k < i ==> (#[trigger] values@[k])@ == copied_value(
                    columns[k],
                    cells[k],
                    new_id@,
                    target_uid@,
                ),
        decreases row@.len() - i,
    {
        let column = source.columns[i].as_str();
        assert(columns[i as int] == column@);
        if channel_cell(column, &row[i]) {
            assert(is_channel_cell(columns[i as int], cells[i as int]));
            return Err(CHANNEL_MESSAGE.to_string());
        }
        values.push(copy_value(column, &row[i], new_id, target_uid));
        i += 1;
    }
    assert(value_views(values@) =~= copied_values(columns, cells, new_id@, target_uid@));
    Ok(Some(RowInsert { sql: insert_sql(&source.columns), values }))
}

/// An entry that says to which account a conversation belongs in the cloud.
#[derive(Debug)]
pub struct EdgeMapping {
    pub session_id: String,
    pub conversation_id: String,
    pub msg_channel: String,
    /// In seconds.
    pub created_at: i64,
}

/// The contents of an `EdgeMapping`.
pub struct EdgeView {
    pub session_id: Seq<char>,
    pub conversation_id: Seq<char>,
    pub msg_channel: Seq<char>,
    pub created_at: i64,
}

impl View for EdgeMapping {
    type V = EdgeView;

    open spec fn view(&self) -> EdgeView {
        EdgeView {
            session_id: self.session_id@,
            conversation_id: self.conversation_id@,
            msg_channel: self.msg_channel@,
            created_at: self.created_at,
        }
    }
}

/// The channel of an account.
pub open spec fn channel_of(uid: Seq<char>) -> Seq<char> {
    "convmsg:"@ + uid
}

/// The entry for the conversation `id` of the account `uid`, made at `now` seconds.
pub open spec fn entry_for(id: Seq<char>, uid: Seq<char>, now: i64) -> EdgeView {
    EdgeView {
        session_id: id,
        conversation_id: id,
        msg_channel: channel_of(uid),
        created_at: now,
    }
}

/// The entry for a new conversation of an account, made at `now` seconds; `None` where there is no
/// table for it.
pub fn insert_edge_sync_mapping(
    has_table: bool,
    new_id: &str,
    target_uid: &str,
    now: i64,
) -> (r: Option<EdgeMapping>)
    ensures
        r is Some == has_table,
        r matches Some(m) ==> m@ == entry_for(new_id@, target_uid@, now),
{
    if !has_table {
        return None;
    }
    Some(
        EdgeMapping {
            session_id: new_id.to_string(),
            conversation_id: new_id.to_string(),
            msg_channel: concat2("convmsg:", target_uid),
            created_at: now,
        },
    )
}

/// Copying a row changes its id, its account and its mark of deletion, and nothing else; the copy
/// belongs to the other account and is not deleted.
pub proof fn law_a_copied_row_keeps_its_contents(
    columns: Seq<Seq<char>>,
    values: Seq<SqlView>,
    new_id: Seq<char>,
    target_uid: Seq<char>,
    i: int,
)
    requires
        columns.len() == values.len(),
        0 <= i < columns.len(),
    ensures
        ({
            let copy = copied_values(columns, values, new_id, target_uid);
            &&& copy.len() == values.len()
            &&& columns[i] != "id"@ && columns[i] != "user_id"@ && columns[i] != "deleted_at"@
                ==> copy[i] == values[i]
            &&& columns[i] == "id"@ ==> copy[i] == SqlView::Text(new_id)
            &&& columns[i] == "user_id"@ ==> copy[i] == SqlView::Text(target_uid)
            &&& columns[i] == "deleted_at"@ ==> copy[i] == SqlView::Null
        }),
{
    reveal_strlit("id");
    reveal_strlit("user_id");
    reveal_strlit("deleted_at");
    assert("id"@.len() == 2 && "user_id"@.len() == 7 && "deleted_at"@.len() == 10);
}

} // verus!
