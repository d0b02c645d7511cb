//! Tidying up the conversations of an account.
//!
//! There are two ways. Clearing duplicates takes conversations for the same whose bodies agree, and
//! deletes the bodies of all but one: it is strict. Folding takes conversations for the same that
//! have one name in one directory, and only hides all but one: their bodies stay.

use crate::json::{
    count_tree, field, field_views, has_distinct_names, json_bool, json_count, json_object,
    json_string, json_strings, json_tree, object_tree, text_list, JsonTree,
};
use crate::session::stored::{
    copy_or_empty, shown_title, stored_views, Body, BodyView, StoredSession, StoredView,
};
use crate::session::titles::{
    is_claw, is_claw_workspace, neutral_body, normalize_cwd, normalize_jsonl, plain_cwd,
};
use crate::text::{concat2, view_opt, views};
use serde_json::Value;
use vstd::prelude::*;

verus! {

broadcast use vstd::string::group_string_axioms;

// ---------------------------------------------------------------------------
// Groups
// ---------------------------------------------------------------------------

/// What the members of a group have in common. A conversation without a key belongs to no group.
pub type GroupKey = Option<(Seq<char>, Seq<char>)>;

/// The contents of a key.
pub open spec fn key_view(key: Option<(String, String)>) -> GroupKey {
    match key {
        Some(k) => Some((k.0@, k.1@)),
        None => None,
    }
}

/// The contents of a list of keys.
pub open spec fn key_views(keys: Seq<Option<(String, String)>>) -> Seq<GroupKey> {
    Seq::new(keys.len(), |i: int| key_view(keys[i]))
}

/// Machine integers as integers.
pub open spec fn time_views(times: Seq<i64>) -> Seq<int> {
    Seq::new(times.len(), |i: int| times[i] as int)
}

/// The conversations `i` and `j` belong to one group.
pub open spec fn same_group(keys: Seq<GroupKey>, i: int, j: int) -> bool {
    keys[i] is Some && keys[i] == keys[j]
}

/// The conversation `i` is preferred to `j`: it was changed later, or at the same time and comes
/// first.
pub open spec fn newer(times: Seq<int>, i: int, j: int) -> bool {
    times[i] > times[j] || (times[i] == times[j] && i < j)
}

/// Another conversation of the group of `i` is preferred to it.
pub open spec fn is_redundant(keys: Seq<GroupKey>, times: Seq<int>, i: int) -> bool {
    exists|j: int| 0 <= j < keys.len() && #[trigger] same_group(keys, i, j) && newer(times, j, i)
}

/// The first conversation, from `k` on, with the key of `i`.
pub open spec fn first_from(keys: Seq<GroupKey>, i: int, k: int) -> int
    decreases i - k,
{
    if k >= i || keys[k] == keys[i] {
        k
    } else {
        first_from(keys, i, k + 1)
    }
}

/// The first conversation with the key of `i`.
pub open spec fn leader(keys: Seq<GroupKey>, i: int) -> int {
    first_from(keys, i, 0)
}

/// `i` is dealt with before `j`: group by group, and in each group the preferred one first.
pub open spec fn goes_first(keys: Seq<GroupKey>, times: Seq<int>, i: int, j: int) -> bool {
    leader(keys, i) < leader(keys, j) || (leader(keys, i) == leader(keys, j) && newer(times, i, j))
}

/// `order` is the list of the redundant conversations, each once, as they are dealt with.
pub open spec fn is_removal_order(keys: Seq<GroupKey>, times: Seq<int>, order: Seq<int>) -> bool {
    &&& forall|p: int|
        0 <= p < order.len() ==> 0 <= #[trigger] order[p] < keys.len() && is_redundant(
            keys,
            times,
            order[p],
        )
    &&& forall|i: int|
        0 <= i < keys.len() && #[trigger] is_redundant(keys, times, i) ==> order.contains(i)
    &&& forall|p: int, q: int|
        0 <= p < q < order.len() ==> goes_first(keys, times, #[trigger] order[p], #[trigger] order[q])
}

/// Positions as integers.
pub open spec fn places(order: Seq<usize>) -> Seq<int> {
    Seq::new(order.len(), |i: int| order[i] as int)
}

fn same_key(a: &Option<(String, String)>, b: &Option<(String, String)>) -> (r: bool)
    ensures
        r == (key_view(*a) == key_view(*b)),
{
    match (a, b) {
        (Some(x), Some(y)) => x.0 == y.0 && x.1 == y.1,
        (None, None) => true,
        _ => false,
    }
}

fn find_leader(keys: &Vec<Option<(String, String)>>, i: usize) -> (r: usize)
    requires
        i < keys@.len(),
    ensures
        r == leader(key_views(keys@), i as int),
        r <= i,
{
    let ghost all = key_views(keys@);
    let mut k: usize = 0;
    while k < i
        invariant
            k <= i < keys@.len(),
            all == key_views(keys@),
            leader(all, i as int) == first_from(all, i as int, k as int),
        decreases i - k,
    {
        if same_key(&keys[k], &keys[i]) {
            return k;
        }
        k += 1;
    }
    k
}

fn preferred(times: &Vec<i64>, i: usize, j: usize) -> (r: bool)
    requires
        i < times@.len(),
        j < times@.len(),
    ensures
        r == newer(time_views(times@), i as int, j as int),
{
    times[i] > times[j] || (times[i] == times[j] && i < j)
}

proof fn lemma_leader(keys: Seq<GroupKey>, i: int, k: int)
    requires
        0 <= k <= i < keys.len(),
    ensures
        k <= first_from(keys, i, k) <= i,
        keys[first_from(keys, i, k)] == keys[i],
        forall|m: int| k <= m < first_from(keys, i, k) ==> #[trigger] keys[m] != keys[i],
    decreases i - k,
{
    if k < i && keys[k] != keys[i] {
        lemma_leader(keys, i, k + 1);
    }
}

/// Two conversations have one leader exactly where they have one key.
proof fn lemma_one_leader(keys: Seq<GroupKey>, i: int, j: int)
    requires
        0 <= i < keys.len(),
        0 <= j < keys.len(),
    ensures
        (leader(keys, i) == leader(keys, j)) == (keys[i] == keys[j]),
{
    lemma_leader(keys, i, 0);
    lemma_leader(keys, j, 0);
    let a = leader(keys, i);
    let b = leader(keys, j);
    if keys[i] == keys[j] && a != b {
        if a < b {
            assert(keys[a] != keys[j]);
        } else {
            assert(keys[b] != keys[i]);
        }
    }
}

fn has_preferred(
    keys: &Vec<Option<(String, String)>>,
    times: &Vec<i64>,
    leaders: &Vec<usize>,
    i: usize,
) -> (r: bool)
    requires
        i < keys@.len(),
        keys@.len() == times@.len(),
        keys@.len() == leaders@.len(),
        forall|k: int|
            0 <= k < keys@.len() ==> #[trigger] leaders@[k] == leader(key_views(keys@), k),
    ensures
        r == is_redundant(key_views(keys@), time_views(times@), i as int),
{
    let ghost all = key_views(keys@);
    let ghost stamps = time_views(times@);
    if keys[i].is_none() {
        assert(all[i as int] is None);
        return false;
    }
    assert(all[i as int] is Some);
    let mut j: usize = 0;
    while j < keys.len()
        invariant
            i < keys@.len(),
            j <= keys@.len(),
            keys@.len() == times@.len(),
            keys@.len() == leaders@.len(),
            all == key_views(keys@),
            stamps == time_views(times@),
            all[i as int] is Some,
            forall|k: int| 0 <= k < keys@.len() ==> #[trigger] leaders@[k] == leader(all, k),
            forall|k: int|
                0 <= k < j ==> !(#[trigger] same_group(all, i as int, k) && newer(
                    stamps,
                    k,
                    i as int,
                )),
        decreases keys@.len() - j,
    {
        proof {
            lemma_one_leader(all, i as int, j as int);
            assert(leaders@[i as int] == leader(all, i as int));
            assert(leaders@[j as int] == leader(all, j as int));
        }
        if leaders[i] == leaders[j] && preferred(times, j, i) {
            assert(same_group(all, i as int, j as int));
            return true;
        }
        j += 1;
    }
    false
}

/// The redundant conversations as they are dealt with. `keys` are the keys of the conversations,
/// `times` tells when each was last changed.
pub fn plan_removals(keys: &Vec<Option<(String, String)>>, times: &Vec<i64>) -> (r: Vec<usize>)
    requires
        keys@.len() == times@.len(),
    ensures
        is_removal_order(key_views(keys@), time_views(times@), places(r@)),
{
    let ghost all = key_views(keys@);
    let ghost stamps = time_views(times@);
    let mut leaders: Vec<usize> = Vec::new();
    let mut k: usize = 0;
    while k < keys.len()
        invariant
            k <= keys@.len(),
            all == key_views(keys@),
            leaders@.len() == k,
            forall|m: int| 0 <= m < k ==> #[trigger] leaders@[m] == leader(all, m),
        decreases keys@.len() - k,
    {
        let found = find_leader(keys, k);
        leaders.push(found);
        k += 1;
    }
    let mut order: Vec<usize> = Vec::new();
    let mut i: usize = 0;
    while i < keys.len()
        invariant
            i <= keys@.len(),
            keys@.len() == times@.len(),
            keys@.len() == leaders@.len(),
            all == key_views(keys@),
            stamps == time_views(times@),
            forall|m: int| 0 <= m < keys@.len() ==> #[trigger] leaders@[m] == leader(all, m),
            forall|p: int|
                0 <= p < order@.len() ==> #[trigger] order@[p] < i && is_redundant(
                    all,
                    stamps,
                    order@[p] as int,
                ),
            forall|m: int|
                0 <= m < i && #[trigger] is_redundant(all, stamps, m) ==> places(order@).contains(m),
            forall|p: int, q: int|
                0 <= p < q < order@.len() ==> goes_first(
                    all,
                    stamps,
                    #[trigger] order@[p] as int,
                    #[trigger] order@[q] as int,
                ),
        decreases keys@.len() - i,
    {
        if has_preferred(keys, times, &leaders, i) {
            let ghost before = order@;
            let mut p: usize = order.len();
            while p > 0 && (leaders[i] < leaders[order[p - 1]] || (leaders[i]
                == leaders[order[p - 1]] && preferred(times, i, order[p - 1])))
                invariant
                    p <= order@.len(),
                    i < keys@.len(),
                    order@ == before,
                    keys@.len() == times@.len(),
                    keys@.len() == leaders@.len(),
                    all == key_views(keys@),
                    stamps == time_views(times@),
                    forall|m: int|
                        0 <= m < keys@.len() ==> #[trigger] leaders@[m] == leader(all, m),
                    forall|m: int| 0 <= m < order@.len() ==> #[trigger] order@[m] < i,
                    forall|m: int|
                        p <= m < order@.len() ==> goes_first(
                            all,
                            stamps,
                            i as int,
                            #[trigger] order@[m] as int,
                        ),
                decreases p,
            {
                proof {
                    let o = order@[p - 1] as int;
                    assert(leaders@[o] == leader(all, o));
                    assert(leaders@[i as int] == leader(all, i as int));
                    assert(goes_first(all, stamps, i as int, o));
                }
                p -= 1;
            }
            proof {
                if p > 0 {
                    let o = order@[p - 1] as int;
                    assert(o < i);
                    assert(leaders@[o] == leader(all, o));
                    assert(leaders@[i as int] == leader(all, i as int));
                    assert(goes_first(all, stamps, o, i as int));
                }
                assert forall|m: int| 0 <= m < p implies goes_first(
                    all,
                    stamps,
                    #[trigger] order@[m] as int,
                    i as int,
                ) by {
                    if m < p - 1 {
                        assert(goes_first(all, stamps, order@[m] as int, order@[p - 1] as int));
                    }
                }
            }
            order.insert(p, i);
            proof {
                assert(order@ == before.insert(p as int, i));
                assert forall|m: int|
                    0 <= m < i + 1 && #[trigger] is_redundant(all, stamps, m) implies places(
                    order@,
                ).contains(m) by {
                    if m == i {
                        assert(places(order@)[p as int] == m);
                    } else {
                        let at = choose|at: int|
                            0 <= at < places(before).len() && places(before)[at] == m;
                        if at < p {
                            assert(places(order@)[at] == m);
                        } else {
                            assert(places(order@)[at + 1] == m);
                        }
                    }
                }
                assert forall|a: int, b: int| 0 <= a < b < order@.len() implies goes_first(
                    all,
                    stamps,
                    #[trigger] order@[a] as int,
                    #[trigger] order@[b] as int,
                ) by {
                    let x = if a < p {
                        a
                    } else {
                        a - 1
                    };
                    let y = if b < p {
                        b
                    } else {
                        b - 1
                    };
                    if a != p && b != p {
                        assert(order@[a] == before[x] && order@[b] == before[y]);
                        assert(goes_first(all, stamps, before[x] as int, before[y] as int));
                    } else if a == p {
                        assert(order@[b] == before[y]);
                        assert(goes_first(all, stamps, i as int, before[y] as int));
                    } else {
                        assert(order@[a] == before[x]);
                        assert(goes_first(all, stamps, before[x] as int, i as int));
                    }
                }
                assert forall|m: int| 0 <= m < order@.len() implies #[trigger] order@[m] < i + 1
                    && is_redundant(all, stamps, order@[m] as int) by {
                    if m != p {
                        let x = if m < p {
                            m
                        } else {
                            m - 1
                        };
                        assert(order@[m] == before[x]);
                    }
                }
            }
        }
        i += 1;
    }
    proof {
        assert forall|p: int, q: int| 0 <= p < q < places(order@).len() implies goes_first(
            all,
            stamps,
            #[trigger] places(order@)[p],
            #[trigger] places(order@)[q],
        ) by {
            assert(goes_first(all, stamps, order@[p] as int, order@[q] as int));
        }
        assert forall|p: int| 0 <= p < places(order@).len() implies 0 <= #[trigger] places(order@)[p]
            < all.len() && is_redundant(all, stamps, places(order@)[p]) by {
            assert(order@[p] < i);
        }
    }
    order
}

// ---------------------------------------------------------------------------
// What is taken for the same
// ---------------------------------------------------------------------------

/// When the conversations were last changed.
pub open spec fn times_of(rows: Seq<StoredView>) -> Seq<int> {
    Seq::new(rows.len(), |i: int| rows[i].updated_at)
}

/// What makes conversations duplicates: one directory and one body, but for the id. A conversation
/// without a readable body is nobody's duplicate.
pub open spec fn duplicate_key(s: StoredView) -> GroupKey {
    match s.body {
        BodyView::Text(text) => if is_claw(s.cwd) {
            None
        } else {
            Some((plain_cwd(s.cwd), neutral_body(text, s.id)))
        },
        _ => None,
    }
}

/// What makes conversations fold into one: one directory and one name.
pub open spec fn fold_key(s: StoredView) -> GroupKey {
    if is_claw(s.cwd) {
        None
    } else {
        Some((plain_cwd(s.cwd), shown_title(s)))
    }
}

/// The way in which an account is tidied up.
#[derive(Debug, Clone, Copy, PartialEq, Eq, Structural)]
pub enum TidyKind {
    /// Duplicates are cleared, and their bodies deleted.
    ClearDuplicates,
    /// Conversations of one name are folded into one; their bodies stay.
    Fold,
}

/// The keys of the conversations.
pub open spec fn keys_of(kind: TidyKind, rows: Seq<StoredView>) -> Seq<GroupKey> {
    Seq::new(
        rows.len(),
        |i: int|
            match kind {
                TidyKind::ClearDuplicates => duplicate_key(rows[i]),
                TidyKind::Fold => fold_key(rows[i]),
            },
    )
}

fn read_key(kind: TidyKind, s: &StoredSession) -> (r: Option<(String, String)>)
    ensures
        key_view(r) == match kind {
            TidyKind::ClearDuplicates => duplicate_key(s@),
            TidyKind::Fold => fold_key(s@),
        },
{
    let cwd = copy_or_empty(&s.cwd);
    if is_claw_workspace(cwd.as_str()) {
        return None;
    }
    match kind {
        TidyKind::ClearDuplicates => match &s.body {
            Body::Text(text) => {
                let id = copy_or_empty(&s.id);
                Some((normalize_cwd(cwd.as_str()), normalize_jsonl(text.as_str(), id.as_str())))
            },
            _ => None,
        },
        TidyKind::Fold => Some((normalize_cwd(cwd.as_str()), s.display_title())),
    }
}

// ---------------------------------------------------------------------------
// Tidying up
// ---------------------------------------------------------------------------

/// Why the conversations of an account could not be read.
#[derive(Debug, Clone, Copy, PartialEq, Eq, Structural)]
pub enum TidyError {
    NoDatabase,
    CannotOpen,
    NoTable,
    QueryFailed,
}

/// What is said of an error.
pub open spec fn error_text(e: TidyError) -> Seq<char> {
    match e {
        TidyError::NoDatabase => "workbuddy.db 不存在"@,
        TidyError::CannotOpen => "无法打开 workbuddy.db"@,
        TidyError::NoTable => "sessions 表不存在"@,
        TidyError::QueryFailed => "查询会话失败"@,
    }
}

fn error_reason(e: TidyError) -> (r: &'static str)
    ensures
        r@ == error_text(e),
{
    match e {
        TidyError::NoDatabase => "workbuddy.db 不存在",
        TidyError::CannotOpen => "无法打开 workbuddy.db",
        TidyError::NoTable => "sessions 表不存在",
        TidyError::QueryFailed => "查询会话失败",
    }
}

/// A conversation that is to be hidden.
#[derive(Debug)]
pub struct Removal {
    pub id: String,
    /// Its body is deleted once it is hidden.
    pub delete_body: bool,
}

/// An account being tidied up: the conversations are hidden one after the other, up to the first
/// that cannot be.
#[derive(Debug)]
pub struct TidyRun {
    pub removals: Vec<Removal>,
    /// How many are hidden.
    pub done: usize,
    /// Why it was given up.
    pub failure: Option<String>,
}

/// The contents of a `TidyRun`.
pub struct TidyView {
    pub removals: Seq<(Seq<char>, bool)>,
    pub done: int,
    pub failure: Option<Seq<char>>,
}

impl View for TidyRun {
    type V = TidyView;

    open spec fn view(&self) -> TidyView {
        TidyView {
            removals: Seq::new(
                self.removals@.len(),
                |i: int| (self.removals@[i].id@, self.removals@[i].delete_body),
            ),
            done: self.done as int,
            failure: view_opt(self.failure),
        }
    }
}

impl TidyView {
    pub open spec fn valid(self) -> bool {
        0 <= self.done <= self.removals.len()
    }

    /// There is a conversation to hide next.
    pub open spec fn is_running(self) -> bool {
        self.failure is None && self.done < self.removals.len()
    }

    /// The ids of the conversations that are hidden.
    pub open spec fn hidden_ids(self) -> Seq<Seq<char>> {
        Seq::new(self.done as nat, |i: int| self.removals[i].0)
    }
}

/// The run that deals with the conversations `order` of `rows`, before anything was hidden.
pub open spec fn run_over(kind: TidyKind, rows: Seq<StoredView>, order: Seq<int>) -> TidyView {
    TidyView {
        removals: Seq::new(
            order.len(),
            |p: int| (rows[order[p]].id, kind is ClearDuplicates),
        ),
        done: 0,
        failure: None,
    }
}

/// The run hides exactly the redundant conversations of `rows`.
pub open spec fn is_run_for(kind: TidyKind, rows: Seq<StoredView>, run: TidyView) -> bool {
    exists|order: Seq<int>|
        #[trigger] is_removal_order(keys_of(kind, rows), times_of(rows), order) && run == run_over(
            kind,
            rows,
            order,
        )
}

fn start_tidying(kind: TidyKind, rows: &Vec<StoredSession>) -> (r: TidyRun)
    ensures
        is_run_for(kind, stored_views(rows@), r@),
{
    let ghost shown = stored_views(rows@);
    let mut keys: Vec<Option<(String, String)>> = Vec::new();
    let mut times: Vec<i64> = Vec::new();
    let mut i: usize = 0;
    while i < rows.len()
        invariant
            i <= rows@.len(),
            shown == stored_views(rows@),
            keys@.len() == i,
            times@.len() == i,
            forall|k: int| 0 <= k < i ==> key_view(#[trigger] keys@[k]) == keys_of(kind, shown)[k],
            forall|k: int| 0 <= k < i ==> #[trigger] times@[k] == shown[k].updated_at,
        decreases rows@.len() - i,
    {
        keys.push(read_key(kind, &rows[i]));
        times.push(rows[i].changed_at());
        i += 1;
    }
    let order = plan_removals(&keys, &times);
    let ghost chosen = places(order@);
    proof {
        assert(key_views(keys@) =~= keys_of(kind, shown));
        assert(time_views(times@) =~= times_of(shown));
        assert(is_removal_order(keys_of(kind, shown), times_of(shown), chosen));
    }
    let mut removals: Vec<Removal> = Vec::new();
    let mut p: usize = 0;
    while p < order.len()
        invariant
            p <= order@.len(),
            shown == stored_views(rows@),
            chosen == places(order@),
            is_removal_order(keys_of(kind, shown), times_of(shown), chosen),
            removals@.len() == p,
            forall|k: int|
                0 <= k < p ==> (#[trigger] removals@[k]).id@ == shown[chosen[k]].id
                    && removals@[k].delete_body == (kind is ClearDuplicates),
        decreases order@.len() - p,
    {
        let place: usize = order[p];
        assert(chosen[p as int] == place);
        let id = copy_or_empty(&rows[place].id);
        assert(id@ == shown[place as int].id);
        removals.push(Removal { id, delete_body: matches!(kind, TidyKind::ClearDuplicates) });
        p += 1;
    }
    let run = TidyRun { removals, done: 0, failure: None };
    assert(run@.removals =~= run_over(kind, shown, chosen).removals);
    run
}

/// What an account is tidied up with, or what is reported where its conversations could not be
/// read.
pub open spec fn is_tidied(
    kind: TidyKind,
    rows: Result<&Vec<StoredSession>, TidyError>,
    r: Result<TidyRun, TidyReport>,
) -> bool {
    match rows {
        Ok(rows) => r matches Ok(run) && is_run_for(kind, stored_views(rows@), run@),
        Err(e) => r matches Err(report) && report@ == ReportView {
            reason: Some(error_text(e)),
            removed: 0,
            removed_ids: Seq::empty(),
        },
    }
}

fn unread(e: TidyError) -> (r: TidyReport)
    ensures
        r@ == (ReportView {
            reason: Some(error_text(e)),
            removed: 0,
            removed_ids: Seq::empty(),
        }),
{
    let report = TidyReport {
        reason: Some(error_reason(e).to_string()),
        removed: 0,
        removed_ids: Vec::new(),
    };
    assert(report@.removed_ids =~= Seq::empty());
    report
}

/// Starts to clear the duplicates among the conversations of an account: of those in one directory
/// with one body, all but the one that was changed last. `rows` are the conversations that are not
/// deleted.
pub fn dedup_sessions_for_user(rows: Result<&Vec<StoredSession>, TidyError>) -> (r: Result<
    TidyRun,
    TidyReport,
>)
    ensures
        is_tidied(TidyKind::ClearDuplicates, rows, r),
{
    match rows {
        Ok(rows) => Ok(start_tidying(TidyKind::ClearDuplicates, rows)),
        Err(e) => Err(unread(e)),
    }
}

/// Starts to fold the conversations of an account: of those in one directory with one name, all but
/// the one that was changed last. `rows` are the conversations that are not deleted.
pub fn collapse_sessions_for_user(rows: Result<&Vec<StoredSession>, TidyError>) -> (r: Result<
    TidyRun,
    TidyReport,
>)
    ensures
        is_tidied(TidyKind::Fold, rows, r),
{
    match rows {
        Ok(rows) => Ok(start_tidying(TidyKind::Fold, rows)),
        Err(e) => Err(unread(e)),
    }
}

impl TidyRun {
    /// The conversation to hide next.
    pub fn next(&self) -> (r: Option<&Removal>)
        requires
            self@.valid(),
        ensures
            r is Some == self@.is_running(),
            r matches Some(removal) ==> (removal.id@, removal.delete_body)
                == self@.removals[self@.done],
    {
        if self.failure.is_none() && self.done < self.removals.len() {
            Some(&self.removals[self.done])
        } else {
            None
        }
    }

    /// The conversation was hidden. Says whether its body is deleted now.
    pub fn on_hidden(&mut self) -> (r: bool)
        requires
            old(self)@.valid(),
            old(self)@.is_running(),
        ensures
            r == old(self)@.removals[old(self)@.done].1,
            final(self)@ == (TidyView { done: old(self)@.done + 1, ..old(self)@ }),
            final(self)@.valid(),
    {
        let total: usize = self.removals.len();
        let delete_body = self.removals[self.done].delete_body;
        assert(self.done < total);
        self.done += 1;
        assert(self@.removals =~= old(self)@.removals);
        delete_body
    }

    /// The conversation could not be hidden: nothing more is tried, and its body stays.
    pub fn on_refused(&mut self, error: &str)
        requires
            old(self)@.valid(),
            old(self)@.is_running(),
        ensures
            final(self)@ == (TidyView { failure: Some(refusal_text(error@)), ..old(self)@ }),
            !final(self)@.is_running(),
            final(self)@.valid(),
    {
        self.failure = Some(
            concat2("写入 workbuddy.db 失败（请关闭 WorkBuddy 后重试）：", error),
        );
        assert(self@.removals =~= old(self)@.removals);
    }

    /// What is reported: how many conversations were hidden, and which, or why it was given up.
    pub fn report(&self) -> (r: TidyReport)
        requires
            self@.valid(),
        ensures
            r@ == (ReportView {
                reason: self@.failure,
                removed: self@.done,
                removed_ids: self@.hidden_ids(),
            }),
    {
        let mut ids: Vec<String> = Vec::new();
        let mut i: usize = 0;
        while i < self.done
            invariant
                i <= self.done <= self.removals@.len(),
                ids@.len() == i,
                forall|k: int| 0 <= k < i ==> (#[trigger] ids@[k])@ == self.removals@[k].id@,
            decreases self.done - i,
        {
            ids.push(self.removals[i].id.clone());
            i += 1;
        }
        assert(views(ids@) =~= self@.hidden_ids());
        TidyReport {
            reason: crate::text::copy_opt(&self.failure),
            removed: self.done as u64,
            removed_ids: ids,
        }
    }
}

/// What is said where a conversation could not be hidden.
pub open spec fn refusal_text(error: Seq<char>) -> Seq<char> {
    "写入 workbuddy.db 失败（请关闭 WorkBuddy 后重试）："@ + error
}

/// What tidying up came to.
#[derive(Debug)]
pub struct TidyReport {
    /// Why it failed, where it did.
    pub reason: Option<String>,
    /// How many conversations were hidden.
    pub removed: u64,
    /// Which ones. Their entries in the cloud are to be deleted too.
    pub removed_ids: Vec<String>,
}

/// The contents of a `TidyReport`.
pub struct ReportView {
    pub reason: Option<Seq<char>>,
    pub removed: int,
    pub removed_ids: Seq<Seq<char>>,
}

impl View for TidyReport {
    type V = ReportView;

    open spec fn view(&self) -> ReportView {
        ReportView {
            reason: view_opt(self.reason),
            removed: self.removed as int,
            removed_ids: views(self.removed_ids@),
        }
    }
}

/// The members of a report.
pub open spec fn report_fields(r: TidyReport) -> Seq<(Seq<char>, JsonTree)> {
    match r.reason {
        Some(reason) => seq![
            ("ok"@, JsonTree::Bool(false)),
            ("reason"@, JsonTree::Text(reason@)),
            ("removed"@, count_tree(r.removed)),
        ],
        None => seq![
            ("ok"@, JsonTree::Bool(true)),
            ("removed"@, count_tree(r.removed)),
            ("removedIds"@, text_list(views(r.removed_ids@))),
        ],
    }
}

/// The members of a report have different names.
proof fn lemma_report_names(r: TidyReport)
    ensures
        has_distinct_names(report_fields(r)),
{
    reveal_strlit("ok");
    reveal_strlit("reason");
    reveal_strlit("removed");
    reveal_strlit("removedIds");
    assert("ok"@.len() == 2);
    assert("reason"@.len() == 6);
    assert("removed"@.len() == 7);
    assert("removedIds"@.len() == 10);
}

/// A report as it is sent out.
pub fn tidy_value(report: &TidyReport) -> (r: Value)
    ensures
        json_tree(r) == object_tree(report_fields(*report)),
{
    let mut fields: Vec<(String, Value)> = Vec::new();
    match &report.reason {
        Some(reason) => {
            fields.push(field("ok", json_bool(false)));
            fields.push(field("reason", json_string(reason.as_str())));
            fields.push(field("removed", json_count(report.removed)));
        },
        None => {
            fields.push(field("ok", json_bool(true)));
            fields.push(field("removed", json_count(report.removed)));
            fields.push(field("removedIds", json_strings(&report.removed_ids)));
        },
    }
    proof {
        assert(field_views(fields@) =~= report_fields(*report));
        lemma_report_names(*report);
    }
    json_object(fields)
}

// ---------------------------------------------------------------------------
// Laws
// ---------------------------------------------------------------------------

/// The preferred one among the first `n` conversations of the group of `i`, itself among them.
proof fn lemma_preferred_one(keys: Seq<GroupKey>, times: Seq<int>, i: int, n: int) -> (k: int)
    requires
        keys.len() == times.len(),
        0 <= i < keys.len(),
        keys[i] is Some,
        0 <= n <= keys.len(),
    ensures
        0 <= k < keys.len(),
        same_group(keys, i, k),
        k == i || newer(times, k, i),
        forall|j: int|
            0 <= j < n && #[trigger] same_group(keys, i, j) ==> j == k || newer(times, k, j),
    decreases n,
{
    if n == 0 {
        i
    } else {
        let k = lemma_preferred_one(keys, times, i, n - 1);
        let j = n - 1;
        if same_group(keys, i, j) && newer(times, j, k) {
            j
        } else {
            k
        }
    }
}

/// One conversation of every group stays, and it is preferred to all that go.
pub proof fn law_one_of_each_group_stays(keys: Seq<GroupKey>, times: Seq<int>, i: int)
    requires
        keys.len() == times.len(),
        0 <= i < keys.len(),
        keys[i] is Some,
    ensures
        exists|k: int|
            0 <= k < keys.len() && #[trigger] same_group(keys, i, k) && !is_redundant(keys, times, k)
                && (k == i || newer(times, k, i)),
{
    let k = lemma_preferred_one(keys, times, i, keys.len() as int);
    if is_redundant(keys, times, k) {
        let j = choose|j: int|
            0 <= j < keys.len() && #[trigger] same_group(keys, k, j) && newer(times, j, k);
        assert(same_group(keys, i, j));
    }
    assert(same_group(keys, i, k));
}

/// Of two conversations of one group at most one stays: to tidy up once more would change nothing.
pub proof fn law_no_two_of_a_group_stay(keys: Seq<GroupKey>, times: Seq<int>, i: int, j: int)
    requires
        keys.len() == times.len(),
        0 <= i < keys.len(),
        0 <= j < keys.len(),
        i != j,
        same_group(keys, i, j),
    ensures
        is_redundant(keys, times, i) || is_redundant(keys, times, j),
{
    assert(same_group(keys, j, i));
    if newer(times, i, j) {
        assert(is_redundant(keys, times, j));
    } else {
        assert(newer(times, j, i));
        assert(is_redundant(keys, times, i));
    }
}

/// Clearing duplicates loses no body: for every conversation that can have duplicates one stays in
/// the same directory with the same body, but for the id. Every other conversation, one without a
/// readable body or one that belongs to a channel, stays itself.
pub proof fn law_clearing_duplicates_loses_nothing(rows: Seq<StoredView>, i: int)
    requires
        0 <= i < rows.len(),
    ensures
        ({
            let keys = keys_of(TidyKind::ClearDuplicates, rows);
            let times = times_of(rows);
            if duplicate_key(rows[i]) is Some {
                exists|k: int|
                    0 <= k < rows.len() && !#[trigger] is_redundant(keys, times, k)
                        && duplicate_key(rows[k]) == duplicate_key(rows[i])
            } else {
                !is_redundant(keys, times, i)
            }
        }),
{
    let keys = keys_of(TidyKind::ClearDuplicates, rows);
    let times = times_of(rows);
    if keys[i] is Some {
        law_one_of_each_group_stays(keys, times, i);
        let k = choose|k: int|
            0 <= k < keys.len() && #[trigger] same_group(keys, i, k) && !is_redundant(
                keys,
                times,
                k,
            );
        assert(!is_redundant(keys, times, k));
    } else {
        assert(!is_redundant(keys, times, i));
    }
}

/// Folding loses no name: for every conversation that belongs to no channel one stays in the same
/// directory with the same name that was changed no earlier. No body is deleted.
pub proof fn law_folding_keeps_every_name(rows: Seq<StoredView>, i: int)
    requires
        0 <= i < rows.len(),
        !is_claw(rows[i].cwd),
    ensures
        exists|k: int|
            0 <= k < rows.len() && !#[trigger] is_redundant(
                keys_of(TidyKind::Fold, rows),
                times_of(rows),
                k,
            ) && plain_cwd(rows[k].cwd) == plain_cwd(rows[i].cwd) && shown_title(rows[k])
                == shown_title(rows[i]) && rows[k].updated_at >= rows[i].updated_at,
        forall|order: Seq<int>, p: int|
            0 <= p < order.len() ==> !(#[trigger] run_over(
                TidyKind::Fold,
                rows,
                order,
            ).removals[p]).1,
{
    let keys = keys_of(TidyKind::Fold, rows);
    let times = times_of(rows);
    law_one_of_each_group_stays(keys, times, i);
    let k = choose|k: int|
        0 <= k < keys.len() && #[trigger] same_group(keys, i, k) && !is_redundant(keys, times, k) && (
        k == i || newer(times, k, i));
    assert(!is_redundant(keys, times, k));
}

/// A body is deleted only after its conversation was hidden, and one that could not be hidden ends
/// the run: whatever happens, what is hidden is a first part of what was to be hidden.
pub proof fn law_nothing_is_hidden_after_a_refusal(run: TidyView, error: Seq<char>)
    requires
        run.valid(),
        run.is_running(),
    ensures
        ({
            let refused = TidyView { failure: Some(refusal_text(error)), ..run };
            &&& !refused.is_running()
            &&& refused.hidden_ids() == run.hidden_ids()
            &&& forall|i: int|
                0 <= i < run.hidden_ids().len() ==> #[trigger] run.hidden_ids()[i]
                    == run.removals[i].0
        }),
{
}

} // verus!
