//! What copying and tidying up do to the conversations that are stored.
//!
//! This is a model of the two databases and of the files of bodies. It says what becomes of them
//! when a plan is carried out, so that it can be stated what is never lost.

use crate::session::copy::{
    body_for, copied_session, decided, is_fresh_for, law_copying_again_is_skipped,
    lemma_named_index, named_index, planned, Decision, PlanView,
};
use crate::session::rows::{copied_value, copied_values, entry_for, EdgeView, SqlView};
use crate::session::stored::{shown_title, BodyView, StoredView};
use crate::session::tidy::{
    duplicate_key, is_redundant, is_removal_order, keys_of, law_clearing_duplicates_loses_nothing,
    law_no_two_of_a_group_stay, newer, run_over, same_group, times_of, TidyKind, TidyView,
};
use crate::session::titles::plain_cwd;
use vstd::prelude::*;

verus! {

/// A row of the table of conversations: the values of its columns.
pub struct StoreRow {
    pub cells: Map<Seq<char>, SqlView>,
}

impl StoreRow {
    /// The value of a column; null where the table has no such column.
    pub open spec fn cell(self, column: Seq<char>) -> SqlView {
        if self.cells.contains_key(column) {
            self.cells[column]
        } else {
            SqlView::Null
        }
    }

    /// The text of a column, where it holds one.
    pub open spec fn text(self, column: Seq<char>) -> Option<Seq<char>> {
        match self.cell(column) {
            SqlView::Text(s) => Some(s),
            _ => None,
        }
    }

    pub open spec fn id(self) -> Seq<char> {
        match self.text("id"@) {
            Some(id) => id,
            None => Seq::empty(),
        }
    }

    /// The account that it belongs to.
    pub open spec fn user(self) -> Seq<char> {
        match self.text("user_id"@) {
            Some(user) => user,
            None => Seq::empty(),
        }
    }

    /// It is hidden.
    pub open spec fn deleted(self) -> bool {
        !(self.cell("deleted_at"@) is Null)
    }

    /// The row tells of its id and its account.
    pub open spec fn has_columns(self) -> bool {
        self.cells.contains_key("id"@) && self.cells.contains_key("user_id"@)
    }

    /// The columns that are read hold what is expected of them, or nothing.
    pub open spec fn is_readable(self) -> bool {
        &&& is_text_or_null(self.cell("id"@))
        &&& is_text_or_null(self.cell("cwd"@))
        &&& is_text_or_null(self.cell("title"@))
        &&& is_text_or_null(self.cell("custom_title"@))
        &&& self.cell("updated_at"@) is Null || self.cell("updated_at"@) is Integer
    }
}

pub open spec fn is_text_or_null(value: SqlView) -> bool {
    value is Text || value is Null
}

/// The conversations that are stored: the rows, the bodies by the ids of their conversations, and
/// the entries that say to which account a conversation belongs in the cloud.
pub struct Store {
    pub rows: Seq<StoreRow>,
    pub bodies: Map<Seq<char>, Seq<char>>,
    pub entries: Seq<EdgeView>,
}

/// No two rows have one id.
pub open spec fn has_distinct_ids(rows: Seq<StoreRow>) -> bool {
    forall|i: int, j: int|
        0 <= i < j < rows.len() ==> (#[trigger] rows[i]).id() != (#[trigger] rows[j]).id()
}

/// Every row tells of its id and its account.
pub open spec fn is_table(rows: Seq<StoreRow>) -> bool {
    forall|i: int| 0 <= i < rows.len() ==> (#[trigger] rows[i]).has_columns()
}

/// No row has the id `id`.
pub open spec fn lacks_id(rows: Seq<StoreRow>, id: Seq<char>) -> bool {
    forall|i: int| 0 <= i < rows.len() ==> (#[trigger] rows[i]).id() != id
}

/// The entry is one for the conversation `id`.
pub open spec fn is_entry_of(e: EdgeView, id: Seq<char>) -> bool {
    e.session_id == id || e.conversation_id == id
}

/// The entries for the conversation `id`.
pub open spec fn entries_of(entries: Seq<EdgeView>, id: Seq<char>) -> Seq<EdgeView>
    decreases entries.len(),
{
    if entries.len() == 0 {
        Seq::empty()
    } else if is_entry_of(entries.last(), id) {
        entries_of(entries.drop_last(), id).push(entries.last())
    } else {
        entries_of(entries.drop_last(), id)
    }
}

/// Neither a row nor an entry has the id `id`.
pub open spec fn is_new_id(store: Store, id: Seq<char>) -> bool {
    lacks_id(store.rows, id) && entries_of(store.entries, id).len() == 0
}

/// A row with its body.
pub open spec fn with_body(row: StoreRow, bodies: Map<Seq<char>, Seq<char>>) -> StoredView {
    StoredView {
        id: row.id(),
        cwd: match row.text("cwd"@) {
            Some(cwd) => cwd,
            None => Seq::empty(),
        },
        title: row.text("title"@),
        custom_title: row.text("custom_title"@),
        updated_at: match row.cell("updated_at"@) {
            SqlView::Integer(at) => at as int,
            _ => 0,
        },
        body: if bodies.contains_key(row.id()) {
            BodyView::Text(bodies[row.id()])
        } else {
            BodyView::Absent
        },
    }
}

/// The row belongs to the account, is not hidden, and can be read.
pub open spec fn is_active(row: StoreRow, user: Seq<char>) -> bool {
    row.user() == user && !row.deleted() && row.is_readable()
}

/// The rows of an account that are not hidden, in order.
pub open spec fn active_rows(rows: Seq<StoreRow>, user: Seq<char>) -> Seq<StoreRow>
    decreases rows.len(),
{
    if rows.len() == 0 {
        Seq::empty()
    } else if is_active(rows.last(), user) {
        active_rows(rows.drop_last(), user).push(rows.last())
    } else {
        active_rows(rows.drop_last(), user)
    }
}

/// The conversations of an account that are not hidden, in order.
pub open spec fn active(store: Store, user: Seq<char>) -> Seq<StoredView> {
    let rows = active_rows(store.rows, user);
    Seq::new(rows.len(), |i: int| with_body(rows[i], store.bodies))
}

/// The rows without the one of the id `id`.
pub open spec fn without_id(rows: Seq<StoreRow>, id: Seq<char>) -> Seq<StoreRow>
    decreases rows.len(),
{
    if rows.len() == 0 {
        Seq::empty()
    } else if rows.last().id() == id {
        without_id(rows.drop_last(), id)
    } else {
        without_id(rows.drop_last(), id).push(rows.last())
    }
}

/// The copy of a row, under the id `id` in the account `user`.
pub open spec fn copied_row(row: StoreRow, id: Seq<char>, user: Seq<char>) -> StoreRow {
    StoreRow {
        cells: Map::new(
            |column: Seq<char>| row.cells.contains_key(column),
            |column: Seq<char>| copied_value(column, row.cells[column], id, user),
        ),
    }
}

/// The row with these values in these columns.
pub open spec fn row_with(columns: Seq<Seq<char>>, values: Seq<SqlView>) -> StoreRow {
    StoreRow {
        cells: Map::new(
            |column: Seq<char>| columns.contains(column),
            |column: Seq<char>| values[columns.index_of(column)],
        ),
    }
}

/// What is written for the copy of a row is the copy of that row.
pub proof fn law_the_copied_row_is_written(
    columns: Seq<Seq<char>>,
    values: Seq<SqlView>,
    id: Seq<char>,
    user: Seq<char>,
)
    requires
        columns.len() == values.len(),
    ensures
        row_with(columns, copied_values(columns, values, id, user)) == copied_row(
            row_with(columns, values),
            id,
            user,
        ),
{
    let written = row_with(columns, copied_values(columns, values, id, user));
    let copied = copied_row(row_with(columns, values), id, user);
    assert forall|column: Seq<char>| written.cells.contains_key(column) implies written.cells[column]
        == copied.cells[column] by {
        let at = columns.index_of(column);
        assert(0 <= at < columns.len() && columns[at] == column);
    }
    assert(written.cells =~= copied.cells);
}

proof fn lemma_columns()
    ensures
        "id"@ != "user_id"@,
        "id"@ != "deleted_at"@,
        "user_id"@ != "deleted_at"@,
        "cwd"@ != "id"@,
        "cwd"@ != "user_id"@,
        "cwd"@ != "deleted_at"@,
        "title"@ != "id"@,
        "title"@ != "user_id"@,
        "title"@ != "deleted_at"@,
        "custom_title"@ != "id"@,
        "custom_title"@ != "user_id"@,
        "custom_title"@ != "deleted_at"@,
        "updated_at"@ != "id"@,
        "updated_at"@ != "user_id"@,
        "updated_at"@ != "deleted_at"@,
{
    reveal_strlit("id");
    reveal_strlit("user_id");
    reveal_strlit("deleted_at");
    reveal_strlit("cwd");
    reveal_strlit("title");
    reveal_strlit("custom_title");
    reveal_strlit("updated_at");
    assert("id"@.len() == 2 && "user_id"@.len() == 7 && "deleted_at"@.len() == 10);
    assert("cwd"@.len() == 3 && "title"@.len() == 5 && "custom_title"@.len() == 12);
    assert("updated_at"@.len() == 10 && "updated_at"@[0] != "deleted_at"@[0]);
}

/// The copy of a row has the new id and account, is not hidden, and says otherwise what the row says.
proof fn lemma_copied_row(row: StoreRow, id: Seq<char>, user: Seq<char>)
    requires
        row.has_columns(),
    ensures
        copied_row(row, id, user).has_columns(),
        copied_row(row, id, user).id() == id,
        copied_row(row, id, user).user() == user,
        !copied_row(row, id, user).deleted(),
        row.is_readable() ==> copied_row(row, id, user).is_readable(),
        forall|bodies: Map<Seq<char>, Seq<char>>, others: Map<Seq<char>, Seq<char>>|
            (#[trigger] with_body(copied_row(row, id, user), bodies)) == (StoredView {
                id,
                body: with_body(copied_row(row, id, user), bodies).body,
                ..#[trigger] with_body(row, others)
            }),
{
    lemma_columns();
    let copy = copied_row(row, id, user);
    assert(copy.cell("id"@) == SqlView::Text(id));
    assert(copy.cell("user_id"@) == SqlView::Text(user));
    assert(copy.cell("deleted_at"@) == SqlView::Null);
    assert(copy.cell("cwd"@) == row.cell("cwd"@));
    assert(copy.cell("title"@) == row.cell("title"@));
    assert(copy.cell("custom_title"@) == row.cell("custom_title"@));
    assert(copy.cell("updated_at"@) == row.cell("updated_at"@));
}

// ---------------------------------------------------------------------------
// Copying
// ---------------------------------------------------------------------------

/// What of a plan to write could be carried out.
pub struct CopyWrites {
    pub body: bool,
    pub row: bool,
    pub entry: bool,
}

/// The store once a plan to copy the conversation of `row` to the account `target` was carried out,
/// as far as that could be done, at `now` seconds. The row that is written takes the place of any
/// with its id; a new conversation gets an entry once its row is there.
pub open spec fn after_copy(
    store: Store,
    row: StoreRow,
    plan: PlanView,
    target: Seq<char>,
    wrote: CopyWrites,
    now: i64,
) -> Store {
    match plan {
        PlanView::Skip { .. } => store,
        PlanView::Write { target_id, body, is_new } => Store {
            rows: if wrote.row {
                without_id(store.rows, target_id).push(copied_row(row, target_id, target))
            } else {
                store.rows
            },
            bodies: if body is Some && wrote.body {
                store.bodies.insert(target_id, body->0)
            } else {
                store.bodies
            },
            entries: if is_new && wrote.row && wrote.entry {
                store.entries.push(entry_for(target_id, target, now))
            } else {
                store.entries
            },
        },
    }
}

/// The plan to copy the conversation of `row` to the account `target`, with `new_id` for a new one.
pub open spec fn plan_for(
    store: Store,
    row: StoreRow,
    target: Seq<char>,
    new_id: Seq<char>,
) -> Result<PlanView, Seq<char>> {
    planned(
        Some(with_body(row, store.bodies)),
        active(store, target),
        active(store, target),
        new_id,
    )
}

proof fn lemma_without(rows: Seq<StoreRow>, id: Seq<char>)
    requires
        has_distinct_ids(rows),
    ensures
        has_distinct_ids(without_id(rows, id)),
        lacks_id(without_id(rows, id), id),
        forall|i: int|
            0 <= i < without_id(rows, id).len() ==> rows.contains(#[trigger] without_id(rows, id)[i]),
        forall|i: int|
            0 <= i < rows.len() && (#[trigger] rows[i]).id() != id ==> without_id(rows, id).contains(
                rows[i],
            ),
    decreases rows.len(),
{
    if rows.len() > 0 {
        let shorter = rows.drop_last();
        let rest = without_id(shorter, id);
        let all = without_id(rows, id);
        let last = rows.last();
        assert forall|i: int, j: int| 0 <= i < j < shorter.len() implies (#[trigger] shorter[i]).id()
            != (#[trigger] shorter[j]).id() by {
            assert(rows[i].id() != rows[j].id());
        }
        lemma_without(shorter, id);
        assert forall|i: int| 0 <= i < all.len() implies rows.contains(#[trigger] all[i]) by {
            if i < rest.len() {
                assert(all[i] == rest[i]);
                assert(shorter.contains(rest[i]));
                let k = choose|k: int| 0 <= k < shorter.len() && shorter[k] == rest[i];
                assert(rows[k] == rest[i]);
            } else {
                assert(rows[rows.len() - 1] == all[i]);
            }
        }
        assert forall|i: int| 0 <= i < rows.len() && (#[trigger] rows[i]).id() != id implies all.contains(
            rows[i],
        ) by {
            if i < shorter.len() {
                assert(shorter[i].id() != id);
                assert(rest.contains(shorter[i]));
                let k = choose|k: int| 0 <= k < rest.len() && rest[k] == shorter[i];
                assert(all[k] == rows[i]);
            } else {
                assert(all[all.len() - 1] == rows[i]);
            }
        }
        assert forall|i: int, j: int| 0 <= i < j < all.len() implies (#[trigger] all[i]).id() != (
        #[trigger] all[j]).id() by {
            assert(all[i] == rest[i]);
            if j < rest.len() {
                assert(all[j] == rest[j]);
            } else {
                assert(shorter.contains(rest[i]));
                let k = choose|k: int| 0 <= k < shorter.len() && shorter[k] == rest[i];
                assert(rows[k].id() != rows[rows.len() - 1].id());
            }
        }
        assert forall|i: int| 0 <= i < all.len() implies (#[trigger] all[i]).id() != id by {
            if i < rest.len() {
                assert(all[i] == rest[i]);
            }
        }
    }
}

proof fn lemma_active_rows(rows: Seq<StoreRow>, user: Seq<char>)
    ensures
        forall|i: int|
            0 <= i < active_rows(rows, user).len() ==> is_active(
                #[trigger] active_rows(rows, user)[i],
                user,
            ) && rows.contains(active_rows(rows, user)[i]),
        forall|i: int|
            0 <= i < rows.len() && is_active(#[trigger] rows[i], user) ==> active_rows(
                rows,
                user,
            ).contains(rows[i]),
    decreases rows.len(),
{
    if rows.len() > 0 {
        let shorter = rows.drop_last();
        let rest = active_rows(shorter, user);
        let all = active_rows(rows, user);
        lemma_active_rows(shorter, user);
        assert forall|i: int| 0 <= i < all.len() implies is_active(#[trigger] all[i], user)
            && rows.contains(all[i]) by {
            if i < rest.len() {
                assert(all[i] == rest[i]);
                assert(shorter.contains(rest[i]));
                let k = choose|k: int| 0 <= k < shorter.len() && shorter[k] == rest[i];
                assert(rows[k] == all[i]);
            } else {
                assert(rows[rows.len() - 1] == all[i]);
            }
        }
        assert forall|i: int| 0 <= i < rows.len() && is_active(#[trigger] rows[i], user) implies all.contains(
            rows[i],
        ) by {
            if i < shorter.len() {
                assert(is_active(shorter[i], user));
                assert(rest.contains(shorter[i]));
                let k = choose|k: int| 0 <= k < rest.len() && rest[k] == shorter[i];
                assert(all[k] == rows[i]);
            } else {
                assert(all[all.len() - 1] == rows[i]);
            }
        }
    }
}

proof fn lemma_entries_pushed(entries: Seq<EdgeView>, e: EdgeView, id: Seq<char>)
    ensures
        entries_of(entries.push(e), id) == if is_entry_of(e, id) {
            entries_of(entries, id).push(e)
        } else {
            entries_of(entries, id)
        },
{
    assert(entries.push(e).drop_last() =~= entries);
}

/// The id under which a plan for `row` writes is new, or that of a conversation of the other
/// account.
proof fn lemma_target_id(store: Store, row: StoreRow, target: Seq<char>, new_id: Seq<char>)
    requires
        plan_for(store, row, target, new_id) is Ok,
    ensures
        plan_for(store, row, target, new_id)->Ok_0 matches PlanView::Write {
            target_id,
            body,
            is_new,
        } ==> {
            &&& body == body_for(with_body(row, store.bodies), target_id)
            &&& is_new ==> target_id == new_id
            &&& !is_new ==> exists|k: int|
                0 <= k < store.rows.len() && is_active(#[trigger] store.rows[k], target)
                    && store.rows[k].id() == target_id
        },
{
    let s = with_body(row, store.bodies);
    let titled = active(store, target);
    lemma_named_index(titled, plain_cwd(s.cwd), shown_title(s));
    lemma_active_rows(store.rows, target);
    if let Decision::Update(id) = decided(Some(s), titled, titled) {
        let i = named_index(titled, plain_cwd(s.cwd), shown_title(s))->0;
        let found = active_rows(store.rows, target)[i];
        assert(store.rows.contains(found));
        let k = choose|k: int| 0 <= k < store.rows.len() && store.rows[k] == found;
        assert(is_active(store.rows[k], target));
        assert(store.rows[k].id() == id);
    }
}

/// A plan that writes under another id leaves a row as it is, with its body and its entries; and the
/// rows that are there afterwards were there before, but for the one that is written.
proof fn lemma_untouched(
    store: Store,
    row: StoreRow,
    plan: PlanView,
    target: Seq<char>,
    wrote: CopyWrites,
    now: i64,
)
    requires
        has_distinct_ids(store.rows),
        is_table(store.rows),
        row.has_columns(),
    ensures
        ({
            let after = after_copy(store, row, plan, target, wrote, now);
            &&& has_distinct_ids(after.rows)
            &&& is_table(after.rows)
            &&& forall|k: int|
                0 <= k < store.rows.len() && !writes_under(plan, (#[trigger] store.rows[k]).id())
                    ==> is_as_it_was(store, after, store.rows[k])
            &&& forall|m: int|
                0 <= m < after.rows.len() && (#[trigger] after.rows[m]).user() != target
                    ==> store.rows.contains(after.rows[m])
        }),
{
    let after = after_copy(store, row, plan, target, wrote, now);
    if let PlanView::Write { target_id, body, is_new } = plan {
        let copy = copied_row(row, target_id, target);
        let rest = without_id(store.rows, target_id);
        lemma_copied_row(row, target_id, target);
        lemma_without(store.rows, target_id);
        if wrote.row {
            assert forall|i: int, j: int| 0 <= i < j < after.rows.len() implies (
            #[trigger] after.rows[i]).id() != (#[trigger] after.rows[j]).id() by {
                assert(after.rows[i] == rest[i]);
                if j < rest.len() {
                    assert(after.rows[j] == rest[j]);
                }
            }
            assert forall|i: int| 0 <= i < after.rows.len() implies (
            #[trigger] after.rows[i]).has_columns() by {
                if i < rest.len() {
                    assert(after.rows[i] == rest[i]);
                    assert(store.rows.contains(rest[i]));
                    let k = choose|k: int| 0 <= k < store.rows.len() && store.rows[k] == rest[i];
                    assert(store.rows[k].has_columns());
                }
            }
        }
        assert forall|k: int|
            0 <= k < store.rows.len() && !writes_under(
                plan,
                (#[trigger] store.rows[k]).id(),
            ) implies is_as_it_was(store, after, store.rows[k]) by {
            let id = store.rows[k].id();
            if wrote.row {
                assert(rest.contains(store.rows[k]));
                let p = choose|p: int| 0 <= p < rest.len() && rest[p] == store.rows[k];
                assert(after.rows[p] == store.rows[k]);
            } else {
                assert(after.rows[k] == store.rows[k]);
            }
            lemma_entries_pushed(store.entries, entry_for(target_id, target, now), id);
        }
        assert forall|m: int|
            0 <= m < after.rows.len() && (#[trigger] after.rows[m]).user()
                != target implies store.rows.contains(after.rows[m]) by {
            if wrote.row {
                assert(m < rest.len());
                assert(after.rows[m] == rest[m]);
                assert(store.rows.contains(rest[m]));
            }
        }
    } else {
        assert forall|k: int| 0 <= k < store.rows.len() implies is_as_it_was(
            store,
            after,
            #[trigger] store.rows[k],
        ) by {}
    }
}

/// The plan writes a row or a body under the id `id`.
pub open spec fn writes_under(plan: PlanView, id: Seq<char>) -> bool {
    plan matches PlanView::Write { target_id, .. } && target_id == id
}

/// The row is still there, the same in every column, and so are its body and its entries.
pub open spec fn is_as_it_was(before: Store, after: Store, row: StoreRow) -> bool {
    &&& after.rows.contains(row)
    &&& with_body(row, after.bodies) == with_body(row, before.bodies)
    &&& entries_of(after.entries, row.id()) == entries_of(before.entries, row.id())
}

/// The plan writes over the conversation with the id `id`.
pub open spec fn writes_over(plan: PlanView, id: Seq<char>) -> bool {
    plan matches PlanView::Write { target_id, is_new: false, .. } && target_id == id
}

/// Copying leaves every conversation, of whatever account and hidden or not, as it is, in every
/// column, with its body and its entries, but for the older namesake that it is to write over; the
/// ids stay distinct.
pub proof fn law_copying_touches_nothing_else(
    store: Store,
    row: StoreRow,
    target: Seq<char>,
    new_id: Seq<char>,
    wrote: CopyWrites,
    now: i64,
    k: int,
)
    requires
        has_distinct_ids(store.rows),
        is_table(store.rows),
        row.has_columns(),
        is_new_id(store, new_id),
        plan_for(store, row, target, new_id) is Ok,
        0 <= k < store.rows.len(),
        !writes_over(plan_for(store, row, target, new_id)->Ok_0, store.rows[k].id()),
    ensures
        ({
            let plan = plan_for(store, row, target, new_id)->Ok_0;
            let after = after_copy(store, row, plan, target, wrote, now);
            &&& is_as_it_was(store, after, store.rows[k])
            &&& has_distinct_ids(after.rows)
        }),
{
    let plan = plan_for(store, row, target, new_id)->Ok_0;
    lemma_target_id(store, row, target, new_id);
    lemma_untouched(store, row, plan, target, wrote, now);
    assert(store.rows[k].id() != new_id);
}

// ---------------------------------------------------------------------------
// Copying again and again
// ---------------------------------------------------------------------------

/// One call to copy a conversation: what was read for it, the id for a new conversation, what could
/// be written, and when.
pub struct CopyCall {
    pub source: Option<StoredView>,
    pub equivalents: Seq<StoredView>,
    pub titled: Seq<StoredView>,
    pub new_id: Seq<char>,
    pub wrote: CopyWrites,
    pub now: i64,
}

/// The place of the row with the id `id` that belongs to the account `user`.
pub open spec fn row_index(rows: Seq<StoreRow>, id: Seq<char>, user: Seq<char>) -> Option<int>
    decreases rows.len(),
{
    if rows.len() == 0 {
        None
    } else if rows.last().id() == id && rows.last().user() == user {
        Some(rows.len() - 1)
    } else {
        row_index(rows.drop_last(), id, user)
    }
}

/// The call is one to copy from the account `from` to `to`: what was read of a conversation is read
/// of one that the account has, and the id for a new one is new. What else was read is open, so that
/// reading may have failed.
pub open spec fn is_call_on(
    store: Store,
    call: CopyCall,
    from: Seq<char>,
    to: Seq<char>,
) -> bool {
    &&& call.source matches Some(s) ==> row_index(store.rows, s.id, from) is Some
    &&& forall|i: int|
        0 <= i < call.titled.len() ==> row_index(
            store.rows,
            (#[trigger] call.titled[i]).id,
            to,
        ) is Some
    &&& is_new_id(store, call.new_id)
}

/// The store after a call to copy a conversation from the account `from` to `to`.
pub open spec fn after_call(store: Store, call: CopyCall, from: Seq<char>, to: Seq<char>) -> Store {
    match (
        planned(call.source, call.equivalents, call.titled, call.new_id),
        row_index(store.rows, call.source->0.id, from),
    ) {
        (Ok(plan), Some(k)) => after_copy(store, store.rows[k], plan, to, call.wrote, call.now),
        _ => store,
    }
}

/// The store after calls to copy conversations from the account `from` to `to`.
pub open spec fn after_calls(
    store: Store,
    calls: Seq<CopyCall>,
    from: Seq<char>,
    to: Seq<char>,
) -> Store
    decreases calls.len(),
{
    if calls.len() == 0 {
        store
    } else {
        after_call(after_calls(store, calls.drop_last(), from, to), calls.last(), from, to)
    }
}

/// Each of the calls is one to copy from the account `from` to `to`, on what the calls before it
/// left.
pub open spec fn are_calls_on(
    store: Store,
    calls: Seq<CopyCall>,
    from: Seq<char>,
    to: Seq<char>,
) -> bool
    decreases calls.len(),
{
    calls.len() > 0 ==> {
        &&& are_calls_on(store, calls.drop_last(), from, to)
        &&& is_call_on(after_calls(store, calls.drop_last(), from, to), calls.last(), from, to)
    }
}

proof fn lemma_row_index(rows: Seq<StoreRow>, id: Seq<char>, user: Seq<char>)
    ensures
        row_index(rows, id, user) matches Some(k) ==> 0 <= k < rows.len() && rows[k].id() == id
            && rows[k].user() == user,
    decreases rows.len(),
{
    if rows.len() > 0 {
        lemma_row_index(rows.drop_last(), id, user);
    }
}

proof fn lemma_call(store: Store, call: CopyCall, from: Seq<char>, to: Seq<char>)
    requires
        has_distinct_ids(store.rows),
        is_table(store.rows),
        is_call_on(store, call, from, to),
    ensures
        ({
            let after = after_call(store, call, from, to);
            &&& has_distinct_ids(after.rows)
            &&& is_table(after.rows)
            &&& forall|k: int|
                0 <= k < store.rows.len() && (#[trigger] store.rows[k]).user() != to
                    ==> is_as_it_was(store, after, store.rows[k])
            &&& forall|m: int|
                0 <= m < after.rows.len() && (#[trigger] after.rows[m]).user() != to
                    ==> store.rows.contains(after.rows[m])
        }),
{
    let after = after_call(store, call, from, to);
    let plan = planned(call.source, call.equivalents, call.titled, call.new_id);
    lemma_row_index(store.rows, call.source->0.id, from);
    if plan is Ok && row_index(store.rows, call.source->0.id, from) is Some {
        let row = store.rows[row_index(store.rows, call.source->0.id, from)->0];
        let s = call.source->0;
        lemma_untouched(store, row, plan->Ok_0, to, call.wrote, call.now);
        lemma_named_index(call.titled, plain_cwd(s.cwd), shown_title(s));
        assert forall|k: int|
            0 <= k < store.rows.len() && (#[trigger] store.rows[k]).user()
                != to implies is_as_it_was(store, after, store.rows[k]) by {
            if let Decision::Update(id) = decided(call.source, call.equivalents, call.titled) {
                let i = named_index(call.titled, plain_cwd(s.cwd), shown_title(s))->0;
                assert(row_index(store.rows, call.titled[i].id, to) is Some);
                lemma_row_index(store.rows, id, to);
                let m = row_index(store.rows, id, to)->0;
                if m < k {
                    assert(store.rows[m].id() != store.rows[k].id());
                } else {
                    assert(store.rows[k].id() != store.rows[m].id());
                }
            }
            assert(!writes_under(plan->Ok_0, store.rows[k].id()));
        }
    } else {
        assert forall|k: int| 0 <= k < store.rows.len() implies is_as_it_was(
            store,
            after,
            #[trigger] store.rows[k],
        ) by {}
    }
}

/// However often conversations are copied from one account to another, whatever was read and
/// whether the calls succeed or fail, every conversation of every account but the one that is copied
/// to, and so of the one that is copied from, stays as it was: its row in every column, its body and
/// its entries. No such account gets a row either, and the ids stay distinct.
pub proof fn law_copying_leaves_other_accounts_alone(
    store: Store,
    calls: Seq<CopyCall>,
    from: Seq<char>,
    to: Seq<char>,
)
    requires
        has_distinct_ids(store.rows),
        is_table(store.rows),
        are_calls_on(store, calls, from, to),
    ensures
        ({
            let after = after_calls(store, calls, from, to);
            &&& forall|k: int|
                0 <= k < store.rows.len() && (#[trigger] store.rows[k]).user() != to
                    ==> is_as_it_was(store, after, store.rows[k])
            &&& forall|m: int|
                0 <= m < after.rows.len() && (#[trigger] after.rows[m]).user() != to
                    ==> store.rows.contains(after.rows[m])
            &&& has_distinct_ids(after.rows)
            &&& is_table(after.rows)
        }),
    decreases calls.len(),
{
    let after = after_calls(store, calls, from, to);
    if calls.len() > 0 {
        let before = after_calls(store, calls.drop_last(), from, to);
        law_copying_leaves_other_accounts_alone(store, calls.drop_last(), from, to);
        lemma_call(before, calls.last(), from, to);
        assert forall|k: int|
            0 <= k < store.rows.len() && (#[trigger] store.rows[k]).user()
                != to implies is_as_it_was(store, after, store.rows[k]) by {
            assert(is_as_it_was(store, before, store.rows[k]));
            let p = choose|p: int| 0 <= p < before.rows.len() && before.rows[p] == store.rows[k];
            assert(is_as_it_was(before, after, before.rows[p]));
        }
        assert forall|m: int|
            0 <= m < after.rows.len() && (#[trigger] after.rows[m]).user()
                != to implies store.rows.contains(after.rows[m]) by {
            assert(before.rows.contains(after.rows[m]));
            let p = choose|p: int| 0 <= p < before.rows.len() && before.rows[p] == after.rows[m];
            assert(before.rows[p].user() != to);
        }
    } else {
        assert forall|k: int| 0 <= k < store.rows.len() implies is_as_it_was(
            store,
            after,
            #[trigger] store.rows[k],
        ) by {}
    }
}

/// However often conversations are copied from one account to another, every conversation of the
/// account that they are copied from stays as it was: its row in every column, its body and its
/// entries.
pub proof fn law_copying_leaves_the_source_alone(
    store: Store,
    calls: Seq<CopyCall>,
    from: Seq<char>,
    to: Seq<char>,
    k: int,
)
    requires
        has_distinct_ids(store.rows),
        is_table(store.rows),
        are_calls_on(store, calls, from, to),
        from != to,
        0 <= k < store.rows.len(),
        store.rows[k].user() == from,
    ensures
        is_as_it_was(store, after_calls(store, calls, from, to), store.rows[k]),
{
    law_copying_leaves_other_accounts_alone(store, calls, from, to);
}

proof fn lemma_active_pushed(rows: Seq<StoreRow>, row: StoreRow, user: Seq<char>)
    ensures
        active_rows(rows.push(row), user) == if is_active(row, user) {
            active_rows(rows, user).push(row)
        } else {
            active_rows(rows, user)
        },
{
    assert(rows.push(row).drop_last() =~= rows);
}

proof fn lemma_active_without(rows: Seq<StoreRow>, id: Seq<char>, user: Seq<char>)
    requires
        has_distinct_ids(rows),
    ensures
        active_rows(without_id(rows, id), user).len() == active_rows(rows, user).len() - if exists|
            k: int,
        |
            0 <= k < rows.len() && is_active(#[trigger] rows[k], user) && rows[k].id() == id {
            1int
        } else {
            0int
        },
    decreases rows.len(),
{
    if rows.len() > 0 {
        let shorter = rows.drop_last();
        let last = rows.last();
        assert forall|i: int, j: int| 0 <= i < j < shorter.len() implies (#[trigger] shorter[i]).id()
            != (#[trigger] shorter[j]).id() by {
            assert(rows[i].id() != rows[j].id());
        }
        lemma_active_without(shorter, id, user);
        lemma_active_pushed(without_id(shorter, id), last, user);
        let was = exists|k: int|
            0 <= k < shorter.len() && is_active(#[trigger] shorter[k], user) && shorter[k].id() == id;
        let is = exists|k: int|
            0 <= k < rows.len() && is_active(#[trigger] rows[k], user) && rows[k].id() == id;
        if was {
            let k = choose|k: int|
                0 <= k < shorter.len() && is_active(#[trigger] shorter[k], user) && shorter[k].id()
                    == id;
            assert(is_active(rows[k], user) && rows[k].id() == id);
            assert(rows[k].id() != rows[rows.len() - 1].id());
        }
        if is {
            let k = choose|k: int|
                0 <= k < rows.len() && is_active(#[trigger] rows[k], user) && rows[k].id() == id;
            if k < shorter.len() {
                assert(is_active(shorter[k], user) && shorter[k].id() == id);
            }
        }
        if is_active(last, user) && last.id() == id {
            assert(is_active(rows[rows.len() - 1], user));
        }
    }
}

/// A copy whose row could be written gives the other account one conversation more where it is new,
/// and otherwise as many as it had.
pub proof fn law_copying_adds_one_at_most(
    store: Store,
    row: StoreRow,
    target: Seq<char>,
    new_id: Seq<char>,
    wrote: CopyWrites,
    now: i64,
)
    requires
        has_distinct_ids(store.rows),
        row.has_columns(),
        row.is_readable(),
        is_new_id(store, new_id),
        plan_for(store, row, target, new_id) is Ok,
        wrote.row,
    ensures
        ({
            let plan = plan_for(store, row, target, new_id)->Ok_0;
            let after = after_copy(store, row, plan, target, wrote, now);
            let added = if plan matches PlanView::Write { is_new: true, .. } {
                1int
            } else {
                0int
            };
            active(after, target).len() == active(store, target).len() + added
        }),
{
    let plan = plan_for(store, row, target, new_id)->Ok_0;
    lemma_target_id(store, row, target, new_id);
    if let PlanView::Write { target_id, body, is_new } = plan {
        lemma_copied_row(row, target_id, target);
        lemma_active_without(store.rows, target_id, target);
        lemma_active_pushed(
            without_id(store.rows, target_id),
            copied_row(row, target_id, target),
            target,
        );
        if is_new {
            assert forall|k: int|
                0 <= k < store.rows.len() && is_active(
                    #[trigger] store.rows[k],
                    target,
                ) implies store.rows[k].id() != target_id by {}
        }
    }
}

/// Once a conversation was written to another account, row and body, as a new one or over an older
/// namesake, copying it there again is skipped, and so is copying the copy back.
///
/// Where the conversation has no body, what it is written over must have none either: a body that is
/// there stays, and the two are not the same.
pub proof fn law_copying_to_and_fro_settles(
    store: Store,
    i: int,
    target: Seq<char>,
    new_id: Seq<char>,
    target_id: Seq<char>,
    body: Option<Seq<char>>,
    is_new: bool,
    wrote: CopyWrites,
    now: i64,
)
    requires
        has_distinct_ids(store.rows),
        is_table(store.rows),
        is_new_id(store, new_id),
        0 <= i < store.rows.len(),
        is_active(store.rows[i], store.rows[i].user()),
        is_new || store.rows[i].user() != target,
        plan_for(store, store.rows[i], target, new_id) == Ok::<PlanView, Seq<char>>(
            PlanView::Write { target_id, body, is_new },
        ),
        wrote.row,
        wrote.body,
        is_fresh_for(with_body(store.rows[i], store.bodies), target_id),
        store.bodies.contains_key(store.rows[i].id()) || !store.bodies.contains_key(target_id),
    ensures
        ({
            let row = store.rows[i];
            let plan = PlanView::Write { target_id, body, is_new };
            let after = after_copy(store, row, plan, target, wrote, now);
            let copy = copied_row(row, target_id, target);
            &&& after.rows.contains(row)
            &&& after.rows.contains(copy)
            &&& decided(
                Some(with_body(row, after.bodies)),
                active(after, target),
                active(after, target),
            ) is Equivalent
            &&& decided(
                Some(with_body(copy, after.bodies)),
                active(after, row.user()),
                active(after, row.user()),
            ) is Equivalent
        }),
{
    let row = store.rows[i];
    let s = with_body(row, store.bodies);
    let plan = PlanView::Write { target_id, body, is_new };
    let after = after_copy(store, row, plan, target, wrote, now);
    let copy = copied_row(row, target_id, target);
    let rest = without_id(store.rows, target_id);
    lemma_target_id(store, row, target, new_id);
    if !is_new {
        let k = choose|k: int|
            0 <= k < store.rows.len() && is_active(#[trigger] store.rows[k], target)
                && store.rows[k].id() == target_id;
        if k < i {
            assert(store.rows[k].id() != store.rows[i].id());
        } else {
            assert(store.rows[i].id() != store.rows[k].id());
        }
    }
    assert(row.id() != target_id);
    lemma_copied_row(row, target_id, target);
    lemma_without(store.rows, target_id);
    assert(rest.contains(store.rows[i]));
    let at = choose|at: int| 0 <= at < rest.len() && rest[at] == row;
    assert(after.rows == rest.push(copy));
    assert(after.rows[at] == row);
    assert(after.rows[rest.len() as int] == copy);
    assert(with_body(row, after.bodies) == s);
    assert(with_body(copy, after.bodies) == copied_session(s, target_id));
    lemma_active_rows(after.rows, target);
    lemma_active_rows(after.rows, row.user());
    let there = active(after, target);
    let here = active(after, row.user());
    assert(is_active(after.rows[rest.len() as int], target));
    let p = choose|p: int|
        0 <= p < active_rows(after.rows, target).len() && active_rows(after.rows, target)[p] == copy;
    assert(there[p] == copied_session(s, target_id));
    assert(is_active(after.rows[at], row.user()));
    let q = choose|q: int|
        0 <= q < active_rows(after.rows, row.user()).len() && active_rows(after.rows, row.user())[q]
            == row;
    assert(here[q] == s);
    law_copying_again_is_skipped(s, target_id, there, here, there);
    law_copying_again_is_skipped(s, target_id, there, here, here);
}

// ---------------------------------------------------------------------------
// Tidying up
// ---------------------------------------------------------------------------

/// The row, hidden at the time `at`.
pub open spec fn hidden_row(row: StoreRow, at: i64) -> StoreRow {
    StoreRow { cells: row.cells.insert("deleted_at"@, SqlView::Integer(at)) }
}

/// The entries but for those of the conversations `ids`.
pub open spec fn without_entries(entries: Seq<EdgeView>, ids: Seq<Seq<char>>) -> Seq<EdgeView>
    decreases entries.len(),
{
    if entries.len() == 0 {
        Seq::empty()
    } else if ids.contains(entries.last().session_id) || ids.contains(
        entries.last().conversation_id,
    ) {
        without_entries(entries.drop_last(), ids)
    } else {
        without_entries(entries.drop_last(), ids).push(entries.last())
    }
}

/// No entry of the conversation `id` is one of the conversations `ids` too. Where every entry names
/// one conversation twice, as those that are made here do, that holds of every other id.
pub open spec fn shares_no_entry(
    entries: Seq<EdgeView>,
    id: Seq<char>,
    ids: Seq<Seq<char>>,
) -> bool {
    forall|i: int|
        0 <= i < entries.len() && is_entry_of(#[trigger] entries[i], id) ==> !ids.contains(
            entries[i].session_id,
        ) && !ids.contains(entries[i].conversation_id)
}

/// The store once the first `run.done` conversations of a run were hidden in the account `user`,
/// each at the time that `at` tells.
pub open spec fn after_tidying(
    store: Store,
    user: Seq<char>,
    run: TidyView,
    at: spec_fn(Seq<char>) -> i64,
) -> Store {
    let hidden = run.hidden_ids();
    Store {
        rows: Seq::new(
            store.rows.len(),
            |i: int|
                if store.rows[i].user() == user && hidden.contains(store.rows[i].id()) {
                    hidden_row(store.rows[i], at(store.rows[i].id()))
                } else {
                    store.rows[i]
                },
        ),
        bodies: Map::new(
            |id: Seq<char>|
                store.bodies.contains_key(id) && !exists|k: int|
                    0 <= k < run.done && (#[trigger] run.removals[k]) == (id, true),
            |id: Seq<char>| store.bodies[id],
        ),
        entries: without_entries(store.entries, hidden),
    }
}

/// A row that was hidden keeps its id and its account.
proof fn lemma_hidden_row(row: StoreRow, at: i64)
    ensures
        hidden_row(row, at).id() == row.id(),
        hidden_row(row, at).user() == row.user(),
        hidden_row(row, at).deleted(),
{
    lemma_columns();
    let hidden = hidden_row(row, at);
    assert(hidden.cell("id"@) == row.cell("id"@));
    assert(hidden.cell("user_id"@) == row.cell("user_id"@));
    assert(hidden.cell("deleted_at"@) == SqlView::Integer(at));
}

proof fn lemma_without_entries(entries: Seq<EdgeView>, ids: Seq<Seq<char>>, id: Seq<char>)
    ensures
        ids.contains(id) ==> entries_of(without_entries(entries, ids), id).len() == 0,
        shares_no_entry(entries, id, ids) ==> entries_of(without_entries(entries, ids), id)
            == entries_of(entries, id),
    decreases entries.len(),
{
    if entries.len() > 0 {
        let shorter = entries.drop_last();
        lemma_without_entries(shorter, ids, id);
        lemma_entries_pushed(without_entries(shorter, ids), entries.last(), id);
        if shares_no_entry(entries, id, ids) {
            assert forall|i: int|
                0 <= i < shorter.len() && is_entry_of(
                    #[trigger] shorter[i],
                    id,
                ) implies !ids.contains(shorter[i].session_id) && !ids.contains(
                shorter[i].conversation_id,
            ) by {
                assert(is_entry_of(entries[i], id));
            }
            if is_entry_of(entries.last(), id) {
                assert(is_entry_of(entries[entries.len() - 1], id));
            }
        }
    }
}

/// A conversation that a run does not hide stays as it is: its row in every column, its body, and
/// its entries, unless one of these is an entry of a conversation that is hidden too.
pub proof fn law_what_is_not_hidden_stays_as_it_was(
    store: Store,
    user: Seq<char>,
    run: TidyView,
    at: spec_fn(Seq<char>) -> i64,
    k: int,
)
    requires
        run.valid(),
        0 <= k < store.rows.len(),
        !run.hidden_ids().contains(store.rows[k].id()),
    ensures
        ({
            let after = after_tidying(store, user, run, at);
            let id = store.rows[k].id();
            &&& after.rows[k] == store.rows[k]
            &&& with_body(store.rows[k], after.bodies) == with_body(store.rows[k], store.bodies)
            &&& shares_no_entry(store.entries, id, run.hidden_ids()) ==> is_as_it_was(
                store,
                after,
                store.rows[k],
            )
        }),
{
    let after = after_tidying(store, user, run, at);
    let id = store.rows[k].id();
    if exists|p: int| 0 <= p < run.done && (#[trigger] run.removals[p]) == (id, true) {
        let p = choose|p: int| 0 <= p < run.done && (#[trigger] run.removals[p]) == (id, true);
        assert(run.hidden_ids()[p] == id);
    }
    assert(after.rows[k] == store.rows[k]);
    lemma_without_entries(store.entries, run.hidden_ids(), id);
}

/// An id that no removal has is not hidden.
proof fn lemma_not_hidden(run: TidyView, id: Seq<char>)
    requires
        run.valid(),
        forall|p: int| 0 <= p < run.done ==> (#[trigger] run.removals[p]).0 != id,
    ensures
        !run.hidden_ids().contains(id),
{
    if run.hidden_ids().contains(id) {
        let p = choose|p: int| 0 <= p < run.hidden_ids().len() && run.hidden_ids()[p] == id;
        assert(run.removals[p].0 == id);
    }
}

/// Tidying up an account, carried through or given up on the way, leaves every conversation of every
/// other account as it is, row and body, and deletes no row. Its entries stay too, unless one of
/// them is an entry of a conversation that is hidden.
pub proof fn law_tidying_leaves_other_accounts_alone(
    store: Store,
    user: Seq<char>,
    kind: TidyKind,
    order: Seq<int>,
    done: int,
    at: spec_fn(Seq<char>) -> i64,
    k: int,
)
    requires
        has_distinct_ids(store.rows),
        is_removal_order(
            keys_of(kind, active(store, user)),
            times_of(active(store, user)),
            order,
        ),
        0 <= done <= order.len(),
        0 <= k < store.rows.len(),
        store.rows[k].user() != user,
    ensures
        ({
            let run = TidyView { done, ..run_over(kind, active(store, user), order) };
            let after = after_tidying(store, user, run, at);
            let id = store.rows[k].id();
            &&& after.rows.len() == store.rows.len()
            &&& after.rows[k] == store.rows[k]
            &&& with_body(store.rows[k], after.bodies) == with_body(store.rows[k], store.bodies)
            &&& shares_no_entry(store.entries, id, run.hidden_ids()) ==> is_as_it_was(
                store,
                after,
                store.rows[k],
            )
        }),
{
    let rows = active(store, user);
    let run = TidyView { done, ..run_over(kind, rows, order) };
    let id = store.rows[k].id();
    lemma_active_rows(store.rows, user);
    assert forall|p: int| 0 <= p < done implies (#[trigger] run.removals[p]).0 != id by {
        assert(0 <= order[p] < rows.len());
        let found = active_rows(store.rows, user)[order[p]];
        assert(store.rows.contains(found));
        let m = choose|m: int| 0 <= m < store.rows.len() && store.rows[m] == found;
        if m < k {
            assert(store.rows[m].id() != store.rows[k].id());
        } else {
            assert(store.rows[k].id() != store.rows[m].id());
        }
    }
    lemma_not_hidden(run, id);
    law_what_is_not_hidden_stays_as_it_was(store, user, run, at, k);
}

/// Tidying up leaves no entry of a conversation that it hides.
pub proof fn law_tidying_leaves_no_orphaned_entries(
    store: Store,
    user: Seq<char>,
    run: TidyView,
    at: spec_fn(Seq<char>) -> i64,
    p: int,
)
    requires
        run.valid(),
        0 <= p < run.done,
    ensures
        entries_of(after_tidying(store, user, run, at).entries, run.removals[p].0).len() == 0,
{
    assert(run.hidden_ids()[p] == run.removals[p].0);
    lemma_without_entries(store.entries, run.hidden_ids(), run.removals[p].0);
}

/// A conversation of the list that is not redundant stays, row and body.
proof fn lemma_not_redundant_stays(
    store: Store,
    user: Seq<char>,
    kind: TidyKind,
    order: Seq<int>,
    done: int,
    at: spec_fn(Seq<char>) -> i64,
    kept: int,
    m: int,
)
    requires
        has_distinct_ids(store.rows),
        is_removal_order(
            keys_of(kind, active(store, user)),
            times_of(active(store, user)),
            order,
        ),
        0 <= done <= order.len(),
        0 <= kept < active(store, user).len(),
        !is_redundant(keys_of(kind, active(store, user)), times_of(active(store, user)), kept),
        0 <= m < store.rows.len(),
        store.rows[m] == active_rows(store.rows, user)[kept],
    ensures
        ({
            let run = TidyView { done, ..run_over(kind, active(store, user), order) };
            let after = after_tidying(store, user, run, at);
            &&& after.rows[m] == store.rows[m]
            &&& with_body(store.rows[m], after.bodies) == active(store, user)[kept]
        }),
{
    let list = active_rows(store.rows, user);
    let rows = active(store, user);
    let run = TidyView { done, ..run_over(kind, rows, order) };
    lemma_distinct_list(store.rows, user);
    assert forall|p: int| 0 <= p < done implies (#[trigger] run.removals[p]).0
        != store.rows[m].id() by {
        assert(0 <= order[p] < rows.len() && is_redundant(
            keys_of(kind, rows),
            times_of(rows),
            order[p],
        ));
        assert(order[p] != kept);
        if order[p] < kept {
            assert(list[order[p]].id() != list[kept].id());
        } else {
            assert(list[kept].id() != list[order[p]].id());
        }
    }
    lemma_not_hidden(run, store.rows[m].id());
    law_what_is_not_hidden_stays_as_it_was(store, user, run, at, m);
}

/// Clearing the duplicates of an account loses no content: for every conversation of the account
/// that is not hidden before, one is there afterwards, with its body, that is the same but for the
/// id; and one that can have no duplicates is still there itself.
pub proof fn law_clearing_duplicates_keeps_all_content(
    store: Store,
    user: Seq<char>,
    order: Seq<int>,
    done: int,
    at: spec_fn(Seq<char>) -> i64,
    k: int,
)
    requires
        has_distinct_ids(store.rows),
        is_removal_order(
            keys_of(TidyKind::ClearDuplicates, active(store, user)),
            times_of(active(store, user)),
            order,
        ),
        0 <= done <= order.len(),
        0 <= k < store.rows.len(),
        is_active(store.rows[k], user),
    ensures
        ({
            let run = TidyView {
                done,
                ..run_over(TidyKind::ClearDuplicates, active(store, user), order)
            };
            let after = after_tidying(store, user, run, at);
            let before = with_body(store.rows[k], store.bodies);
            exists|m: int|
                0 <= m < after.rows.len() && is_active(#[trigger] after.rows[m], user)
                    && duplicate_key(with_body(after.rows[m], after.bodies)) == duplicate_key(
                    before,
                ) && (duplicate_key(before) is None ==> m == k)
        }),
{
    let kind = TidyKind::ClearDuplicates;
    let list = active_rows(store.rows, user);
    let rows = active(store, user);
    let run = TidyView { done, ..run_over(kind, rows, order) };
    let after = after_tidying(store, user, run, at);
    let keys = keys_of(kind, rows);
    let times = times_of(rows);
    lemma_active_rows(store.rows, user);
    assert(list.contains(store.rows[k]));
    let i = choose|i: int| 0 <= i < list.len() && list[i] == store.rows[k];
    assert(rows[i] == with_body(store.rows[k], store.bodies));
    law_clearing_duplicates_loses_nothing(rows, i);
    let kept = if duplicate_key(rows[i]) is Some {
        choose|c: int|
            0 <= c < rows.len() && !#[trigger] is_redundant(keys, times, c) && duplicate_key(
                rows[c],
            ) == duplicate_key(rows[i])
    } else {
        i
    };
    assert(store.rows.contains(list[kept]));
    let m = if duplicate_key(rows[i]) is Some {
        choose|m: int| 0 <= m < store.rows.len() && store.rows[m] == list[kept]
    } else {
        k
    };
    lemma_not_redundant_stays(store, user, kind, order, done, at, kept, m);
    assert(is_active(after.rows[m], user));
}

proof fn lemma_distinct_list(rows: Seq<StoreRow>, user: Seq<char>)
    requires
        has_distinct_ids(rows),
    ensures
        has_distinct_ids(active_rows(rows, user)),
    decreases rows.len(),
{
    if rows.len() > 0 {
        let shorter = rows.drop_last();
        let rest = active_rows(shorter, user);
        let all = active_rows(rows, user);
        assert forall|i: int, j: int| 0 <= i < j < shorter.len() implies (#[trigger] shorter[i]).id()
            != (#[trigger] shorter[j]).id() by {
            assert(rows[i].id() != rows[j].id());
        }
        lemma_distinct_list(shorter, user);
        lemma_active_rows(shorter, user);
        assert forall|i: int, j: int| 0 <= i < j < all.len() implies (#[trigger] all[i]).id() != (
        #[trigger] all[j]).id() by {
            assert(all[i] == rest[i]);
            if j < rest.len() {
                assert(all[j] == rest[j]);
            } else {
                assert(shorter.contains(rest[i]));
                let k = choose|k: int| 0 <= k < shorter.len() && shorter[k] == rest[i];
                assert(rows[k].id() != rows[rows.len() - 1].id());
            }
        }
    }
}

/// Folding the conversations of an account deletes no body.
pub proof fn law_folding_deletes_no_body(
    store: Store,
    user: Seq<char>,
    order: Seq<int>,
    done: int,
    at: spec_fn(Seq<char>) -> i64,
)
    requires
        0 <= done <= order.len(),
    ensures
        after_tidying(
            store,
            user,
            TidyView { done, ..run_over(TidyKind::Fold, active(store, user), order) },
            at,
        ).bodies == store.bodies,
{
    let run = TidyView { done, ..run_over(TidyKind::Fold, active(store, user), order) };
    let after = after_tidying(store, user, run, at);
    assert forall|k: int| 0 <= k < run.done implies !(#[trigger] run.removals[k]).1 by {}
    assert(after.bodies =~= store.bodies);
}

/// What is there of an account after it was tidied up to the end was there before, row and body, and
/// was not redundant.
proof fn lemma_left_over(
    store: Store,
    user: Seq<char>,
    kind: TidyKind,
    order: Seq<int>,
    at: spec_fn(Seq<char>) -> i64,
    i: int,
) -> (was: int)
    requires
        has_distinct_ids(store.rows),
        is_removal_order(
            keys_of(kind, active(store, user)),
            times_of(active(store, user)),
            order,
        ),
        ({
            let run = TidyView {
                done: order.len() as int,
                ..run_over(kind, active(store, user), order)
            };
            0 <= i < active(after_tidying(store, user, run, at), user).len()
        }),
    ensures
        ({
            let run = TidyView {
                done: order.len() as int,
                ..run_over(kind, active(store, user), order)
            };
            let after = after_tidying(store, user, run, at);
            &&& 0 <= was < active(store, user).len()
            &&& active_rows(after.rows, user)[i] == active_rows(store.rows, user)[was]
            &&& active(after, user)[i] == active(store, user)[was]
            &&& !is_redundant(
                keys_of(kind, active(store, user)),
                times_of(active(store, user)),
                was,
            )
        }),
{
    let rows = active(store, user);
    let list = active_rows(store.rows, user);
    let keys = keys_of(kind, rows);
    let times = times_of(rows);
    let run = TidyView { done: order.len() as int, ..run_over(kind, rows, order) };
    let after = after_tidying(store, user, run, at);
    let row = active_rows(after.rows, user)[i];
    lemma_active_rows(after.rows, user);
    lemma_active_rows(store.rows, user);
    assert(is_active(row, user));
    assert(after.rows.contains(row));
    let m = choose|m: int| 0 <= m < after.rows.len() && after.rows[m] == row;
    lemma_hidden_row(store.rows[m], at(store.rows[m].id()));
    assert(row == store.rows[m]);
    assert(is_active(store.rows[m], user));
    assert(!run.hidden_ids().contains(row.id()));
    assert(list.contains(store.rows[m]));
    let was = choose|was: int| 0 <= was < list.len() && list[was] == store.rows[m];
    if is_redundant(keys, times, was) {
        assert(order.contains(was));
        let p = choose|p: int| 0 <= p < order.len() && order[p] == was;
        assert(run.hidden_ids()[p] == row.id());
    }
    lemma_not_redundant_stays(store, user, kind, order, order.len() as int, at, was, m);
    was
}

/// Tidying up an account again, right after it was tidied up to the end, hides nothing.
pub proof fn law_tidying_again_hides_nothing(
    store: Store,
    user: Seq<char>,
    kind: TidyKind,
    order: Seq<int>,
    at: spec_fn(Seq<char>) -> i64,
    again: Seq<int>,
)
    requires
        has_distinct_ids(store.rows),
        is_removal_order(
            keys_of(kind, active(store, user)),
            times_of(active(store, user)),
            order,
        ),
        ({
            let run = TidyView {
                done: order.len() as int,
                ..run_over(kind, active(store, user), order)
            };
            let after = after_tidying(store, user, run, at);
            is_removal_order(
                keys_of(kind, active(after, user)),
                times_of(active(after, user)),
                again,
            )
        }),
    ensures
        again.len() == 0,
{
    let rows = active(store, user);
    let keys = keys_of(kind, rows);
    let times = times_of(rows);
    let run = TidyView { done: order.len() as int, ..run_over(kind, rows, order) };
    let after = after_tidying(store, user, run, at);
    let left = active(after, user);
    let left_keys = keys_of(kind, left);
    if again.len() > 0 {
        let i = again[0];
        assert(0 <= i < left_keys.len() && is_redundant(left_keys, times_of(left), i));
        let j = choose|j: int|
            0 <= j < left_keys.len() && #[trigger] same_group(left_keys, i, j)
                && newer(times_of(left), j, i);
        let a = lemma_left_over(store, user, kind, order, at, i);
        let b = lemma_left_over(store, user, kind, order, at, j);
        lemma_after_distinct(store, user, run, at);
        lemma_distinct_list(after.rows, user);
        let list = active_rows(after.rows, user);
        if i < j {
            assert(list[i].id() != list[j].id());
        } else {
            assert(list[j].id() != list[i].id());
        }
        assert(keys[a] == left_keys[i] && keys[b] == left_keys[j]);
        assert(same_group(keys, a, b));
        law_no_two_of_a_group_stay(keys, times, a, b);
    }
}

/// Tidying up leaves the ids distinct.
proof fn lemma_after_distinct(
    store: Store,
    user: Seq<char>,
    run: TidyView,
    at: spec_fn(Seq<char>) -> i64,
)
    requires
        has_distinct_ids(store.rows),
    ensures
        has_distinct_ids(after_tidying(store, user, run, at).rows),
{
    let after = after_tidying(store, user, run, at);
    assert forall|i: int, j: int| 0 <= i < j < after.rows.len() implies (
    #[trigger] after.rows[i]).id() != (#[trigger] after.rows[j]).id() by {
        lemma_hidden_row(store.rows[i], at(store.rows[i].id()));
        lemma_hidden_row(store.rows[j], at(store.rows[j].id()));
        assert(store.rows[i].id() != store.rows[j].id());
    }
}

} // verus!
