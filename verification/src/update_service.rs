//! One state machine for checking, downloading and installing an update.
//!
//! The tray menu and the windows show the same snapshot. A host performs the requests and the
//! installation, and hands their outcome to the functions of this module, which decide what the
//! snapshot becomes and what the user is told.

use crate::json::{
    bool_member, field, field_views, get_bool, get_integer, get_text, has_distinct_names,
    integer_member, integer_or_null, json_bool, json_integer, json_null, json_object,
    json_opt_integer, json_opt_string, json_string, json_tree, object_tree, text_member,
    text_or_null, JsonTree,
};
use crate::numerals::{decimal, int_text};
use crate::text::{concat2, concat3, copy_opt, trim, trimmed, view_opt};
use serde_json::Value;
use vstd::prelude::*;

verus! {

broadcast use vstd::string::group_string_axioms;

/// How long after the start the first check runs, in seconds.
pub const FIRST_CHECK_DELAY_SECS: u64 = 15;

/// The time between two checks, in seconds.
pub const CHECK_INTERVAL_SECS: u64 = 1800;

/// What is said where another task is running.
pub const BUSY_MESSAGE: &'static str = "更新任务正在进行中，请稍候";

/// What is said where there is nothing to install.
pub const NO_PACKAGE_MESSAGE: &'static str = "没有可安装的更新包，请先下载更新包";

/// What is said of a download in the demonstration mode.
pub const DEMO_DOWNLOAD_MESSAGE: &'static str = "演示模式已跳过更新下载";

/// What is said of an installation in the demonstration mode.
pub const DEMO_RESTART_MESSAGE: &'static str = "演示模式已跳过更新安装";

/// The menu has no download progress to show.
pub const NO_BUCKET: u8 = 255;

/// How far an update has come.
#[derive(Debug, Clone, Copy, PartialEq, Eq, Structural)]
pub enum UpdatePhase {
    /// Nothing was checked yet.
    Idle,
    /// The update sources are being asked.
    Checking,
    /// This version is the latest.
    UpToDate,
    /// There is a newer version to download.
    Available,
    /// The package is being downloaded.
    Downloading,
    /// The package is there; it is installed when the user restarts.
    ReadyToRestart,
    /// The last step failed and can be tried again.
    Error,
}

/// What the tray menu and the windows show.
#[derive(Debug)]
pub struct UpdateSnapshot {
    pub phase: UpdatePhase,
    /// The version to update to.
    pub latest: Option<String>,
    /// The progress of the download, from 0 to 100, where the size is known.
    pub percent: Option<u8>,
    /// What went wrong.
    pub message: Option<String>,
    /// When the last successful check ended, in seconds.
    pub checked_at: Option<i64>,
}

/// The contents of an `UpdateSnapshot`.
pub struct SnapshotView {
    pub phase: UpdatePhase,
    pub latest: Option<Seq<char>>,
    pub percent: Option<u8>,
    pub message: Option<Seq<char>>,
    pub checked_at: Option<i64>,
}

impl View for UpdateSnapshot {
    type V = SnapshotView;

    open spec fn view(&self) -> SnapshotView {
        SnapshotView {
            phase: self.phase,
            latest: view_opt(self.latest),
            percent: self.percent,
            message: view_opt(self.message),
            checked_at: self.checked_at,
        }
    }
}

impl Clone for UpdateSnapshot {
    fn clone(&self) -> (r: Self)
        ensures
            r@ == self@,
    {
        UpdateSnapshot {
            phase: self.phase,
            latest: copy_opt(&self.latest),
            percent: self.percent,
            message: copy_opt(&self.message),
            checked_at: self.checked_at,
        }
    }
}

/// The snapshot before anything was checked.
pub open spec fn idle_view() -> SnapshotView {
    SnapshotView {
        phase: UpdatePhase::Idle,
        latest: None,
        percent: None,
        message: None,
        checked_at: None,
    }
}

impl SnapshotView {
    /// A version is named where one is to be downloaded or installed, and none where there is
    /// nothing to do; the progress is a percentage.
    pub open spec fn valid(self) -> bool {
        &&& (self.phase is Available || self.phase is Downloading || self.phase is ReadyToRestart)
            ==> self.latest is Some
        &&& (self.phase is Idle || self.phase is UpToDate) ==> self.latest is None
        &&& self.percent matches Some(p) ==> p <= 100
    }

    /// A download is under way or waits to be installed: no check may disturb it.
    pub open spec fn is_settled(self) -> bool {
        self.phase is Downloading || self.phase is ReadyToRestart
    }
}

impl UpdateSnapshot {
    /// The snapshot before anything was checked.
    pub fn idle() -> (r: Self)
        ensures
            r@ == idle_view(),
    {
        UpdateSnapshot {
            phase: UpdatePhase::Idle,
            latest: None,
            percent: None,
            message: None,
            checked_at: None,
        }
    }
}

/// The state of the update service.
#[derive(Debug)]
pub struct UpdateState {
    pub snapshot: UpdateSnapshot,
    /// A check, a download or an installation is running.
    pub busy: bool,
    /// The ten percent for which the menu was last built, or `NO_BUCKET`.
    pub menu_bucket: u8,
    /// The progress of this download has been reported at least once.
    pub progress_reported: bool,
}

/// The contents of an `UpdateState`.
pub struct StateView {
    pub snapshot: SnapshotView,
    pub busy: bool,
    pub menu_bucket: u8,
    pub progress_reported: bool,
}

impl View for UpdateState {
    type V = StateView;

    open spec fn view(&self) -> StateView {
        StateView {
            snapshot: self.snapshot@,
            busy: self.busy,
            menu_bucket: self.menu_bucket,
            progress_reported: self.progress_reported,
        }
    }
}

impl UpdateState {
    /// The state at the start of the process.
    pub fn new() -> (r: Self)
        ensures
            r@ == (StateView {
                snapshot: idle_view(),
                busy: false,
                menu_bucket: NO_BUCKET,
                progress_reported: false,
            }),
    {
        UpdateState {
            snapshot: UpdateSnapshot::idle(),
            busy: false,
            menu_bucket: NO_BUCKET,
            progress_reported: false,
        }
    }
}

// ---------------------------------------------------------------------------
// One task at a time
// ---------------------------------------------------------------------------

/// The right to run a check, a download or an installation. At most one is given out at a time.
#[derive(Debug)]
pub struct BusyGuard(());

/// The state with the busy mark set to `busy`.
pub open spec fn marked(s: StateView, busy: bool) -> StateView {
    StateView { busy, ..s }
}

impl BusyGuard {
    /// Takes the right to run a task; `None` where another task has it.
    pub fn acquire(state: &mut UpdateState) -> (r: Option<BusyGuard>)
        ensures
            r is Some == !old(state)@.busy,
            final(state)@ == marked(old(state)@, true),
    {
        if state.busy {
            None
        } else {
            state.busy = true;
            Some(BusyGuard(()))
        }
    }

    /// Gives the right back.
    pub fn release(self, state: &mut UpdateState)
        ensures
            final(state)@ == marked(old(state)@, false),
    {
        state.busy = false;
    }
}

// ---------------------------------------------------------------------------
// The snapshot
// ---------------------------------------------------------------------------

/// The snapshot as it stands.
pub fn snapshot(state: &UpdateState) -> (r: UpdateSnapshot)
    ensures
        r@ == state@.snapshot,
{
    state.snapshot.clone()
}

/// The snapshot once a check has begun: unchanged while a download is under way or waits to be
/// installed.
pub open spec fn checking(s: SnapshotView) -> SnapshotView {
    if s.is_settled() {
        s
    } else {
        SnapshotView { phase: UpdatePhase::Checking, percent: None, message: None, ..s }
    }
}

/// Begins a check.
pub fn begin_check(state: &mut UpdateState) -> (r: UpdateSnapshot)
    ensures
        r@ == checking(old(state)@.snapshot),
        final(state)@ == (StateView { snapshot: checking(old(state)@.snapshot), ..old(state)@ }),
{
    match state.snapshot.phase {
        UpdatePhase::Downloading => {},
        UpdatePhase::ReadyToRestart => {},
        _ => {
            state.snapshot.phase = UpdatePhase::Checking;
            state.snapshot.percent = None;
            state.snapshot.message = None;
        },
    }
    state.snapshot.clone()
}

/// What the result of a check says, as far as the snapshot shows it.
pub struct CheckOutcome {
    /// The check succeeded.
    pub ok: bool,
    pub latest: Option<String>,
    /// The latest version is newer than this one.
    pub has_update: bool,
    pub message: Option<String>,
    pub error: Option<String>,
    pub checked_at: Option<i64>,
}

/// The contents of a `CheckOutcome`.
pub struct OutcomeView {
    pub ok: bool,
    pub latest: Option<Seq<char>>,
    pub has_update: bool,
    pub message: Option<Seq<char>>,
    pub error: Option<Seq<char>>,
    pub checked_at: Option<i64>,
}

impl View for CheckOutcome {
    type V = OutcomeView;

    open spec fn view(&self) -> OutcomeView {
        OutcomeView {
            ok: self.ok,
            latest: view_opt(self.latest),
            has_update: self.has_update,
            message: view_opt(self.message),
            error: view_opt(self.error),
            checked_at: self.checked_at,
        }
    }
}

/// What the members of a JSON result say.
pub open spec fn outcome_in(tree: JsonTree) -> OutcomeView {
    OutcomeView {
        ok: bool_member(tree, "ok"@) == Some(true),
        latest: text_member(tree, "latest"@),
        has_update: bool_member(tree, "hasUpdate"@) == Some(true),
        message: text_member(tree, "message"@),
        error: text_member(tree, "error"@),
        checked_at: integer_member(tree, "checkedAt"@),
    }
}

/// The version that an outcome announces, where it is newer than this one and not blank.
pub open spec fn announced(outcome: OutcomeView) -> Option<Seq<char>> {
    match outcome.latest {
        Some(latest) => if outcome.has_update && trimmed(latest).len() > 0 {
            Some(trimmed(latest))
        } else {
            None
        },
        None => None,
    }
}

/// The snapshot once a check has ended, at `now` seconds.
///
/// A download that is under way or waits to be installed is left alone. A check that fails while a
/// version is on offer keeps the offer; otherwise it is an error, shown with the message of the
/// result or, without one, with its error.
pub open spec fn after_check(s: SnapshotView, outcome: OutcomeView, now: i64) -> SnapshotView {
    if s.is_settled() {
        s
    } else if !outcome.ok {
        if s.latest is Some && (s.phase is Checking || s.phase is Available) {
            SnapshotView { phase: UpdatePhase::Available, percent: None, message: None, ..s }
        } else {
            SnapshotView {
                phase: UpdatePhase::Error,
                latest: None,
                percent: None,
                message: match outcome.message {
                    Some(m) => Some(m),
                    None => outcome.error,
                },
                ..s
            }
        }
    } else {
        SnapshotView {
            phase: if announced(outcome) is Some {
                UpdatePhase::Available
            } else {
                UpdatePhase::UpToDate
            },
            latest: announced(outcome),
            percent: None,
            message: None,
            checked_at: match outcome.checked_at {
                Some(t) => Some(t),
                None => Some(now),
            },
        }
    }
}

/// Ends a check with `outcome`.
pub fn apply_outcome(state: &mut UpdateState, outcome: &CheckOutcome, now: i64) -> (r:
    UpdateSnapshot)
    ensures
        r@ == after_check(old(state)@.snapshot, outcome@, now),
        final(state)@ == (StateView {
            snapshot: after_check(old(state)@.snapshot, outcome@, now),
            ..old(state)@
        }),
{
    if state.snapshot.phase == UpdatePhase::Downloading || state.snapshot.phase
        == UpdatePhase::ReadyToRestart {
        return state.snapshot.clone();
    }
    state.snapshot.percent = None;
    if !outcome.ok {
        if state.snapshot.latest.is_some() && (state.snapshot.phase == UpdatePhase::Checking
            || state.snapshot.phase == UpdatePhase::Available) {
            state.snapshot.phase = UpdatePhase::Available;
            state.snapshot.message = None;
            return state.snapshot.clone();
        }
        state.snapshot.phase = UpdatePhase::Error;
        state.snapshot.latest = None;
        state.snapshot.message = match &outcome.message {
            Some(m) => Some(m.clone()),
            None => copy_opt(&outcome.error),
        };
        return state.snapshot.clone();
    }
    let latest = match &outcome.latest {
        Some(latest) => trim(latest.as_str()),
        None => String::new(),
    };
    if outcome.has_update && !latest.as_str().is_empty() {
        state.snapshot.phase = UpdatePhase::Available;
        state.snapshot.latest = Some(latest);
    } else {
        state.snapshot.phase = UpdatePhase::UpToDate;
        state.snapshot.latest = None;
    }
    state.snapshot.message = None;
    state.snapshot.checked_at = match outcome.checked_at {
        Some(t) => Some(t),
        None => Some(now),
    };
    state.snapshot.clone()
}

/// What the members of a JSON result say.
pub fn read_outcome(result: &Value) -> (r: CheckOutcome)
    ensures
        r@ == outcome_in(json_tree(*result)),
{
    let ok = get_bool(result, "ok");
    let has_update = get_bool(result, "hasUpdate");
    CheckOutcome {
        ok: matches!(ok, Some(true)),
        latest: get_text(result, "latest"),
        has_update: matches!(has_update, Some(true)),
        message: get_text(result, "message"),
        error: get_text(result, "error"),
        checked_at: get_integer(result, "checkedAt"),
    }
}

/// Ends a check with the JSON result of `update_check`.
pub fn apply_check_result(state: &mut UpdateState, result: &Value, now: i64) -> (r: UpdateSnapshot)
    ensures
        r@ == after_check(old(state)@.snapshot, outcome_in(json_tree(*result)), now),
        final(state)@ == (StateView {
            snapshot: after_check(old(state)@.snapshot, outcome_in(json_tree(*result)), now),
            ..old(state)@
        }),
{
    apply_outcome(state, &read_outcome(result), now)
}

/// The snapshot once the download of `latest` has begun.
pub open spec fn downloading(s: SnapshotView, latest: Seq<char>) -> SnapshotView {
    SnapshotView {
        phase: UpdatePhase::Downloading,
        latest: Some(latest),
        percent: None,
        message: None,
        ..s
    }
}

/// Begins the download of the version `latest`.
pub fn begin_download(state: &mut UpdateState, latest: &str) -> (r: UpdateSnapshot)
    ensures
        r@ == downloading(old(state)@.snapshot, latest@),
        final(state)@ == (StateView {
            snapshot: downloading(old(state)@.snapshot, latest@),
            menu_bucket: 0,
            progress_reported: false,
            ..old(state)@
        }),
{
    state.menu_bucket = 0;
    state.progress_reported = false;
    state.snapshot.phase = UpdatePhase::Downloading;
    state.snapshot.latest = Some(latest.to_string());
    state.snapshot.percent = None;
    state.snapshot.message = None;
    state.snapshot.clone()
}

/// The snapshot once the package of `latest` is there.
pub open spec fn ready(s: SnapshotView, latest: Seq<char>) -> SnapshotView {
    SnapshotView {
        phase: UpdatePhase::ReadyToRestart,
        latest: Some(latest),
        percent: Some(100),
        message: None,
        ..s
    }
}

/// Ends the download of the version `latest`.
pub fn mark_ready_to_restart(state: &mut UpdateState, latest: &str) -> (r: UpdateSnapshot)
    ensures
        r@ == ready(old(state)@.snapshot, latest@),
        final(state)@ == (StateView {
            snapshot: ready(old(state)@.snapshot, latest@),
            menu_bucket: NO_BUCKET,
            ..old(state)@
        }),
{
    state.menu_bucket = NO_BUCKET;
    state.snapshot.phase = UpdatePhase::ReadyToRestart;
    state.snapshot.latest = Some(latest.to_string());
    state.snapshot.percent = Some(100);
    state.snapshot.message = None;
    state.snapshot.clone()
}

/// The snapshot after a failure. The version stays: it tells a failed download, which can be tried
/// again, from a failed check.
pub open spec fn failed(s: SnapshotView, message: Seq<char>) -> SnapshotView {
    SnapshotView { phase: UpdatePhase::Error, percent: None, message: Some(message), ..s }
}

/// Records a failure.
pub fn fail(state: &mut UpdateState, message: String) -> (r: UpdateSnapshot)
    ensures
        r@ == failed(old(state)@.snapshot, message@),
        final(state)@ == (StateView {
            snapshot: failed(old(state)@.snapshot, message@),
            menu_bucket: NO_BUCKET,
            ..old(state)@
        }),
{
    state.menu_bucket = NO_BUCKET;
    state.snapshot.phase = UpdatePhase::Error;
    state.snapshot.percent = None;
    state.snapshot.message = Some(message);
    state.snapshot.clone()
}

// ---------------------------------------------------------------------------
// Progress
// ---------------------------------------------------------------------------

/// `n`, or 100 where it is more.
pub open spec fn at_most_hundred(n: int) -> int {
    if n < 100 {
        n
    } else {
        100
    }
}

/// How much of `total` is there, in whole percent: nothing where the size is unknown or zero, and
/// no more than 100.
pub open spec fn percentage(downloaded: u64, total: Option<u64>) -> Option<u8> {
    match total {
        Some(total) => if total == 0 {
            None
        } else {
            Some(at_most_hundred(downloaded * 100 / total as int) as u8)
        },
        None => None,
    }
}

/// How much of `total` is there, in percent.
pub fn percent_of(downloaded: u64, total: Option<u64>) -> (r: Option<u8>)
    ensures
        r == percentage(downloaded, total),
        r matches Some(p) ==> p <= 100,
{
    let total: u64 = match total {
        Some(total) => total,
        None => {
            return None;
        },
    };
    if total == 0 {
        return None;
    }
    let percent: u128 = (downloaded as u128) * 100 / (total as u128);
    assert(percent == downloaded * 100 / total as int);
    if percent >= 100 {
        Some(100)
    } else {
        Some(percent as u8)
    }
}

/// Records the progress of the download. The new percentage comes back where it has changed.
pub fn advance_progress(state: &mut UpdateState, downloaded: u64, total: Option<u64>) -> (r: Option<
    u8,
>)
    ensures
        ({
            let p = percentage(downloaded, total);
            if p is None || p == old(state)@.snapshot.percent {
                r is None && final(state)@ == old(state)@
            } else {
                r == p && final(state)@ == (StateView {
                    snapshot: (SnapshotView { percent: p, ..old(state)@.snapshot }),
                    ..old(state)@
                })
            }
        }),
{
    let percent: u8 = match percent_of(downloaded, total) {
        Some(p) => p,
        None => {
            return None;
        },
    };
    if let Some(shown) = state.snapshot.percent {
        if shown == percent {
            return None;
        }
    }
    state.snapshot.percent = Some(percent);
    Some(percent)
}

/// Whether the menu is to be built anew: only once for each ten percent, as building it closes a
/// menu that is open.
pub fn should_rebuild_menu(state: &mut UpdateState, percent: u8) -> (r: bool)
    ensures
        r == (old(state)@.menu_bucket != percent / 10),
        final(state)@ == (StateView { menu_bucket: percent / 10, ..old(state)@ }),
{
    let bucket: u8 = percent / 10;
    let changed = state.menu_bucket != bucket;
    state.menu_bucket = bucket;
    changed
}

/// What the tray says during a download.
pub open spec fn tooltip_text(percent: Option<u8>) -> Seq<char> {
    match percent {
        Some(p) => "正在下载更新 "@ + int_text(p as int) + "%"@,
        None => "正在下载更新…"@,
    }
}

/// What the tray says during a download.
pub fn download_tooltip(percent: Option<u8>) -> (r: String)
    ensures
        r@ == tooltip_text(percent),
{
    match percent {
        Some(p) => concat3("正在下载更新 ", decimal(p as i64).as_str(), "%"),
        None => "正在下载更新…".to_string(),
    }
}

/// How much is there once a further chunk has come, as far as 64 bits reach.
pub fn add_chunk(downloaded: u64, chunk_length: u64) -> (r: u64)
    ensures
        r == if downloaded + chunk_length <= u64::MAX {
            downloaded + chunk_length
        } else {
            u64::MAX as int
        },
{
    if downloaded <= u64::MAX - chunk_length {
        downloaded + chunk_length
    } else {
        u64::MAX
    }
}

/// What is to be done after a chunk of the package has come.
pub struct ChunkEffects {
    /// What the tray is to say.
    pub tooltip: String,
    /// The snapshot to send out, where the percentage has changed.
    pub changed: Option<UpdateSnapshot>,
    /// The percentage has changed for the first time in this download.
    pub first_report: bool,
    /// The tray menu is to be built anew.
    pub rebuild_menu: bool,
}

/// Records that `downloaded` bytes are there, and says what follows from it: the tray speaks of
/// every chunk, the snapshot goes out with every new percentage, and the menu is built anew with
/// every ten percent.
pub fn on_download_chunk(state: &mut UpdateState, downloaded: u64, total: Option<u64>) -> (r:
    ChunkEffects)
    ensures
        r.tooltip@ == tooltip_text(percentage(downloaded, total)),
        ({
            let before = old(state)@;
            let p = percentage(downloaded, total);
            if p is None || p == before.snapshot.percent {
                &&& r.changed is None
                &&& !r.first_report
                &&& !r.rebuild_menu
                &&& final(state)@ == before
            } else {
                let shown = SnapshotView { percent: p, ..before.snapshot };
                &&& r.changed matches Some(s) && s@ == shown
                &&& r.first_report == !before.progress_reported
                &&& r.rebuild_menu == (before.menu_bucket != p->0 / 10)
                &&& final(state)@ == StateView {
                    snapshot: shown,
                    busy: before.busy,
                    menu_bucket: p->0 / 10,
                    progress_reported: true,
                }
            }
        }),
{
    let tooltip = download_tooltip(percent_of(downloaded, total));
    match advance_progress(state, downloaded, total) {
        None => ChunkEffects { tooltip, changed: None, first_report: false, rebuild_menu: false },
        Some(percent) => {
            let first_report = !state.progress_reported;
            state.progress_reported = true;
            let shown = state.snapshot.clone();
            let rebuild_menu = should_rebuild_menu(state, percent);
            ChunkEffects { tooltip, changed: Some(shown), first_report, rebuild_menu }
        },
    }
}

// ---------------------------------------------------------------------------
// Checking
// ---------------------------------------------------------------------------

/// Starts a check: `None`, with nothing changed, where another task is running; otherwise the
/// snapshot to show while the sources are asked.
pub fn check(state: &mut UpdateState) -> (r: Option<(BusyGuard, UpdateSnapshot)>)
    ensures
        r is Some == !old(state)@.busy,
        r matches Some((_, s)) ==> s@ == checking(old(state)@.snapshot),
        final(state)@ == if old(state)@.busy {
            old(state)@
        } else {
            StateView { snapshot: checking(old(state)@.snapshot), busy: true, ..old(state)@ }
        },
{
    match BusyGuard::acquire(state) {
        None => None,
        Some(guard) => {
            let shown = begin_check(state);
            Some((guard, shown))
        },
    }
}

/// The members of the result of a check that was turned away.
pub open spec fn busy_fields(release_url: Seq<char>) -> Seq<(Seq<char>, JsonTree)> {
    seq![
        ("ok"@, JsonTree::Bool(false)),
        ("error"@, JsonTree::Text(BUSY_MESSAGE@)),
        ("message"@, JsonTree::Text(BUSY_MESSAGE@)),
        ("releaseUrl"@, JsonTree::Text(release_url)),
    ]
}

/// The members of such a result have different names.
proof fn lemma_busy_names(release_url: Seq<char>)
    ensures
        has_distinct_names(busy_fields(release_url)),
{
    reveal_strlit("ok");
    reveal_strlit("error");
    reveal_strlit("message");
    reveal_strlit("releaseUrl");
    assert("ok"@.len() == 2);
    assert("error"@.len() == 5);
    assert("message"@.len() == 7);
    assert("releaseUrl"@.len() == 10);
}

/// The result of a check that was turned away because another task is running.
pub fn busy_result(release_url: &str) -> (r: Value)
    ensures
        json_tree(r) == object_tree(busy_fields(release_url@)),
{
    let mut fields: Vec<(String, Value)> = Vec::new();
    fields.push(field("ok", json_bool(false)));
    fields.push(field("error", json_string(BUSY_MESSAGE)));
    fields.push(field("message", json_string(BUSY_MESSAGE)));
    fields.push(field("releaseUrl", json_string(release_url)));
    proof {
        assert(field_views(fields@) =~= busy_fields(release_url@));
        lemma_busy_names(release_url@);
    }
    json_object(fields)
}

/// Ends a check: shows its result and gives the right to run a task back.
pub fn finish_check(state: &mut UpdateState, guard: BusyGuard, result: &Value, now: i64) -> (r:
    UpdateSnapshot)
    ensures
        r@ == after_check(old(state)@.snapshot, outcome_in(json_tree(*result)), now),
        final(state)@ == (StateView {
            snapshot: after_check(old(state)@.snapshot, outcome_in(json_tree(*result)), now),
            busy: false,
            ..old(state)@
        }),
{
    let shown = apply_check_result(state, result, now);
    guard.release(state);
    shown
}

// ---------------------------------------------------------------------------
// Downloading
// ---------------------------------------------------------------------------

/// Starts a download. It is turned away in the demonstration mode and where another task is
/// running.
pub fn start_download(state: &mut UpdateState, demo: bool) -> (r: Result<BusyGuard, String>)
    ensures
        r is Ok == (!demo && !old(state)@.busy),
        r matches Err(e) ==> e@ == if demo {
            DEMO_DOWNLOAD_MESSAGE@
        } else {
            BUSY_MESSAGE@
        },
        final(state)@ == if demo {
            old(state)@
        } else {
            marked(old(state)@, true)
        },
{
    if demo {
        return Err(DEMO_DOWNLOAD_MESSAGE.to_string());
    }
    match BusyGuard::acquire(state) {
        None => Err(BUSY_MESSAGE.to_string()),
        Some(guard) => Ok(guard),
    }
}

/// The step at which getting the package failed.
#[derive(Debug, Clone, Copy, PartialEq, Eq, Structural)]
pub enum DownloadStage {
    /// The address of the proxy could not be read.
    Proxy,
    /// The updater could not be set up.
    Setup,
    /// The update source could not be asked for the package.
    Check,
    /// The package could not be fetched.
    Fetch,
}

/// What is said of a failure at `stage`.
pub open spec fn stage_text(stage: DownloadStage, error: Seq<char>) -> Seq<char> {
    match stage {
        DownloadStage::Proxy => "更新代理地址无效："@ + error,
        DownloadStage::Setup => "初始化更新器失败："@ + error,
        DownloadStage::Check => "检查更新包失败："@ + error,
        DownloadStage::Fetch => "下载更新包失败："@ + error,
    }
}

/// What is said of a failure at `stage`.
pub fn download_error(stage: DownloadStage, error: &str) -> (r: String)
    ensures
        r@ == stage_text(stage, error@),
{
    match stage {
        DownloadStage::Proxy => concat2("更新代理地址无效：", error),
        DownloadStage::Setup => concat2("初始化更新器失败：", error),
        DownloadStage::Check => concat2("检查更新包失败：", error),
        DownloadStage::Fetch => concat2("下载更新包失败：", error),
    }
}

/// How a download ended.
pub enum DownloadEnd {
    /// The package of this version is there.
    Package(String),
    /// The update source has nothing newer.
    NothingNew,
    /// It failed, with what is to be said of it.
    Failed(String),
}

/// What the user is told.
pub struct Notice {
    pub title: String,
    pub body: String,
}

/// The contents of an optional notice.
pub open spec fn notice_view(n: Option<Notice>) -> Option<(Seq<char>, Seq<char>)> {
    match n {
        Some(n) => Some((n.title@, n.body@)),
        None => None,
    }
}

/// The outcome of a check that finds nothing newer.
pub open spec fn nothing_new() -> OutcomeView {
    OutcomeView {
        ok: true,
        latest: None,
        has_update: false,
        message: None,
        error: None,
        checked_at: None,
    }
}

/// The state once a download has ended, at `now` seconds.
pub open spec fn after_download(s: StateView, end: DownloadEnd, now: i64) -> StateView {
    match end {
        DownloadEnd::Package(version) => StateView {
            snapshot: ready(s.snapshot, version@),
            busy: false,
            menu_bucket: NO_BUCKET,
            ..s
        },
        DownloadEnd::NothingNew => StateView {
            snapshot: after_check(s.snapshot, nothing_new(), now),
            busy: false,
            ..s
        },
        DownloadEnd::Failed(message) => StateView {
            snapshot: failed(s.snapshot, message@),
            busy: false,
            menu_bucket: NO_BUCKET,
            ..s
        },
    }
}

/// What the user is told once a download has ended.
pub open spec fn download_notice(end: DownloadEnd) -> Option<(Seq<char>, Seq<char>)> {
    match end {
        DownloadEnd::Package(version) => Some(
            (
                "更新已就绪"@,
                "v"@ + version@ + " 已下载完成，点「重启以完成升级」后生效"@,
            ),
        ),
        DownloadEnd::NothingNew => None,
        DownloadEnd::Failed(message) => Some(("更新下载失败"@, message@)),
    }
}

/// Ends a download: shows how it ended, gives the right to run a task back, and says what the user
/// is told.
pub fn finish_download(state: &mut UpdateState, guard: BusyGuard, end: DownloadEnd, now: i64) -> (r:
    (UpdateSnapshot, Option<Notice>))
    ensures
        final(state)@ == after_download(old(state)@, end, now),
        r.0@ == after_download(old(state)@, end, now).snapshot,
        notice_view(r.1) == download_notice(end),
{
    let (shown, notice) = match end {
        DownloadEnd::Package(version) => {
            let shown = mark_ready_to_restart(state, version.as_str());
            let body = concat3(
                "v",
                version.as_str(),
                " 已下载完成，点「重启以完成升级」后生效",
            );
            (shown, Some(Notice { title: "更新已就绪".to_string(), body }))
        },
        DownloadEnd::NothingNew => {
            let outcome = CheckOutcome {
                ok: true,
                latest: None,
                has_update: false,
                message: None,
                error: None,
                checked_at: None,
            };
            (apply_outcome(state, &outcome, now), None)
        },
        DownloadEnd::Failed(message) => {
            let body = message.clone();
            let shown = fail(state, message);
            (shown, Some(Notice { title: "更新下载失败".to_string(), body }))
        },
    };
    guard.release(state);
    (shown, notice)
}

// ---------------------------------------------------------------------------
// Installing
// ---------------------------------------------------------------------------

/// Keeps a package for the installation, in place of any that was kept before.
pub fn store_package<T>(slot: &mut Option<T>, package: T)
    ensures
        *final(slot) == Some(package),
{
    *slot = Some(package);
}

/// Takes the package that was kept; without one, says so.
pub fn take_package_for_install<T>(slot: &mut Option<T>) -> (r: Result<T, String>)
    ensures
        *final(slot) is None,
        match *old(slot) {
            Some(package) => r == Ok::<T, String>(package),
            None => r matches Err(e) && e@ == NO_PACKAGE_MESSAGE@,
        },
{
    match slot.take() {
        Some(package) => Ok(package),
        None => Err(NO_PACKAGE_MESSAGE.to_string()),
    }
}

/// Starts an installation: hands out the package that was kept. It is turned away in the
/// demonstration mode, without a package, and, keeping the package, where another task is running.
pub fn restart<T>(state: &mut UpdateState, slot: &mut Option<T>, demo: bool) -> (r: Result<
    (BusyGuard, T),
    String,
>)
    ensures
        r is Ok == (!demo && *old(slot) is Some && !old(state)@.busy),
        r matches Ok((_, package)) ==> *old(slot) == Some(package),
        r matches Err(e) ==> e@ == if demo {
            DEMO_RESTART_MESSAGE@
        } else if *old(slot) is None {
            NO_PACKAGE_MESSAGE@
        } else {
            BUSY_MESSAGE@
        },
        *final(slot) == if r is Ok {
            None
        } else {
            *old(slot)
        },
        final(state)@ == if r is Ok {
            marked(old(state)@, true)
        } else {
            old(state)@
        },
{
    if demo {
        return Err(DEMO_RESTART_MESSAGE.to_string());
    }
    let package = match take_package_for_install(slot) {
        Ok(package) => package,
        Err(e) => {
            return Err(e);
        },
    };
    match BusyGuard::acquire(state) {
        None => {
            store_package(slot, package);
            Err(BUSY_MESSAGE.to_string())
        },
        Some(guard) => Ok((guard, package)),
    }
}

/// How an installation ended.
pub enum InstallEnd {
    /// The new version was installed and started.
    Relaunched,
    /// It was installed, and could not be started.
    NotRelaunched(String),
    /// It could not be installed.
    Failed(String),
}

/// What the user is told, and the caller gets, once an installation of `version` has ended.
pub open spec fn install_notice(version: Seq<char>, end: InstallEnd) -> Option<
    (Seq<char>, Seq<char>),
> {
    match end {
        InstallEnd::Relaunched => None,
        InstallEnd::NotRelaunched(error) => Some(
            (
                "更新已安装"@,
                "v"@ + version + " 已安装，请手动重启应用完成升级："@ + error@,
            ),
        ),
        InstallEnd::Failed(error) => Some(
            ("更新安装失败"@, "安装 v"@ + version + " 失败："@ + error@),
        ),
    }
}

/// Ends an installation: where it failed, shows the failure and says what the user is told; the
/// body of that notice is the error for the caller.
pub fn finish_restart(state: &mut UpdateState, guard: BusyGuard, version: &str, end: InstallEnd) -> (r:
    Option<(UpdateSnapshot, Notice)>)
    ensures
        match install_notice(version@, end) {
            None => r is None && final(state)@ == marked(old(state)@, false),
            Some((title, body)) => {
                &&& r matches Some((shown, notice))
                &&& notice.title@ == title
                &&& notice.body@ == body
                &&& shown@ == failed(old(state)@.snapshot, body)
                &&& final(state)@ == StateView {
                    snapshot: failed(old(state)@.snapshot, body),
                    busy: false,
                    menu_bucket: NO_BUCKET,
                    ..old(state)@
                }
            },
        },
{
    let (title, body) = match end {
        InstallEnd::Relaunched => {
            guard.release(state);
            return None;
        },
        InstallEnd::NotRelaunched(error) => {
            let mut body = concat3("v", version, " 已安装，请手动重启应用完成升级：");
            body.append(error.as_str());
            ("更新已安装", body)
        },
        InstallEnd::Failed(error) => {
            let mut body = concat3("安装 v", version, " 失败：");
            body.append(error.as_str());
            ("更新安装失败", body)
        },
    };
    let shown = fail(state, body.clone());
    guard.release(state);
    Some((shown, Notice { title: title.to_string(), body }))
}

// ---------------------------------------------------------------------------
// The snapshot as JSON
// ---------------------------------------------------------------------------

/// The name of a phase in the snapshot that is sent out.
pub open spec fn phase_text(phase: UpdatePhase) -> Seq<char> {
    match phase {
        UpdatePhase::Idle => "idle"@,
        UpdatePhase::Checking => "checking"@,
        UpdatePhase::UpToDate => "upToDate"@,
        UpdatePhase::Available => "available"@,
        UpdatePhase::Downloading => "downloading"@,
        UpdatePhase::ReadyToRestart => "readyToRestart"@,
        UpdatePhase::Error => "error"@,
    }
}

/// The name of a phase in the snapshot that is sent out.
pub fn phase_name(phase: UpdatePhase) -> (r: &'static str)
    ensures
        r@ == phase_text(phase),
{
    match phase {
        UpdatePhase::Idle => "idle",
        UpdatePhase::Checking => "checking",
        UpdatePhase::UpToDate => "upToDate",
        UpdatePhase::Available => "available",
        UpdatePhase::Downloading => "downloading",
        UpdatePhase::ReadyToRestart => "readyToRestart",
        UpdatePhase::Error => "error",
    }
}

/// The members of the snapshot that is sent out.
pub open spec fn snapshot_fields(s: SnapshotView) -> Seq<(Seq<char>, JsonTree)> {
    seq![
        ("phase"@, JsonTree::Text(phase_text(s.phase))),
        ("latest"@, text_or_null(s.latest)),
        (
            "percent"@,
            match s.percent {
                Some(p) => JsonTree::Number(Some(p as i64)),
                None => JsonTree::Null,
            },
        ),
        ("message"@, text_or_null(s.message)),
        ("checkedAt"@, integer_or_null(s.checked_at)),
    ]
}

/// The members of a snapshot have different names.
proof fn lemma_snapshot_names(s: SnapshotView)
    ensures
        has_distinct_names(snapshot_fields(s)),
{
    reveal_strlit("phase");
    reveal_strlit("latest");
    reveal_strlit("percent");
    reveal_strlit("message");
    reveal_strlit("checkedAt");
    assert("phase"@.len() == 5);
    assert("latest"@.len() == 6);
    assert("percent"@.len() == 7);
    assert("message"@.len() == 7);
    assert("checkedAt"@.len() == 9);
    assert("percent"@[0] != "message"@[0]);
}

/// The snapshot as it is sent out.
pub fn snapshot_value(s: &UpdateSnapshot) -> (r: Value)
    ensures
        json_tree(r) == object_tree(snapshot_fields(s@)),
{
    let percent = match s.percent {
        Some(p) => json_integer(p as i64),
        None => json_null(),
    };
    let mut fields: Vec<(String, Value)> = Vec::new();
    fields.push(field("phase", json_string(phase_name(s.phase))));
    fields.push(field("latest", json_opt_string(&s.latest)));
    fields.push(field("percent", percent));
    fields.push(field("message", json_opt_string(&s.message)));
    fields.push(field("checkedAt", json_opt_integer(s.checked_at)));
    proof {
        assert(field_views(fields@) =~= snapshot_fields(s@));
        lemma_snapshot_names(s@);
    }
    json_object(fields)
}

// ---------------------------------------------------------------------------
// Laws
// ---------------------------------------------------------------------------

/// The first snapshot is valid, and every step keeps a snapshot valid.
pub proof fn law_snapshots_stay_valid(
    s: SnapshotView,
    outcome: OutcomeView,
    now: i64,
    version: Seq<char>,
    message: Seq<char>,
    downloaded: u64,
    total: Option<u64>,
)
    requires
        s.valid(),
    ensures
        idle_view().valid(),
        checking(s).valid(),
        after_check(s, outcome, now).valid(),
        downloading(s, version).valid(),
        ready(s, version).valid(),
        failed(s, message).valid(),
        percentage(downloaded, total) is Some ==> (SnapshotView {
            percent: percentage(downloaded, total),
            ..s
        }).valid(),
{
}

/// A check, whatever it finds, disturbs neither a download nor a package that waits to be
/// installed.
pub proof fn law_checks_leave_downloads_alone(s: SnapshotView, outcome: OutcomeView, now: i64)
    requires
        s.phase is Downloading || s.phase is ReadyToRestart,
    ensures
        checking(s) == s,
        after_check(s, outcome, now) == s,
        after_check(checking(s), outcome, now) == s,
{
}

/// A check that fails while a version is on offer leaves the offer as it was.
pub proof fn law_failed_recheck_keeps_the_offer(s: SnapshotView, outcome: OutcomeView, now: i64)
    requires
        s.valid(),
        s.phase is Available,
        !outcome.ok,
    ensures
        ({
            let after = after_check(checking(s), outcome, now);
            &&& after.phase is Available
            &&& after.latest == s.latest
            &&& after.message is None
            &&& after.checked_at == s.checked_at
        }),
{
}

/// A check that fails with no version on offer is an error.
pub proof fn law_failed_check_without_an_offer_is_an_error(
    s: SnapshotView,
    outcome: OutcomeView,
    now: i64,
)
    requires
        !s.is_settled(),
        s.latest is None,
        !outcome.ok,
    ensures
        after_check(checking(s), outcome, now).phase is Error,
{
}

/// The progress never goes back as more comes in, and it reaches a hundred exactly when all is
/// there.
pub proof fn law_progress_counts_up(less: u64, more: u64, total: u64)
    requires
        less <= more,
        total > 0,
    ensures
        percentage(less, Some(total))->0 <= percentage(more, Some(total))->0 <= 100,
        (percentage(more, Some(total)) == Some(100u8)) == (more >= total),
{
    let a = less * 100;
    let b = more * 100;
    let t = total as int;
    vstd::arithmetic::div_mod::lemma_div_is_ordered(a, b, t);
    vstd::arithmetic::div_mod::lemma_div_pos_is_pos(a, t);
    vstd::arithmetic::div_mod::lemma_div_multiples_vanish(100, t);
    assert(t * 100 == 100 * t);
    if more >= total {
        vstd::arithmetic::div_mod::lemma_div_is_ordered(100 * t, b, t);
    } else {
        vstd::arithmetic::div_mod::lemma_div_by_multiple_is_strongly_ordered(b, t * 100, 100, t);
    }
}

/// A download that fails keeps the version, so that it can be tried again.
pub proof fn law_failed_download_keeps_the_version(
    s: SnapshotView,
    version: Seq<char>,
    message: Seq<char>,
)
    ensures
        failed(downloading(s, version), message).latest == Some(version),
{
}

/// What happens to the right to run a task.
pub enum TaskEvent {
    /// Someone tries to take it.
    Take,
    /// Someone who has it gives it back.
    GiveBack,
    /// Something else happens to the state, which leaves the busy mark as it is.
    Other(StateView),
}

/// The state, and how many rights to run a task are out.
pub struct TasksView {
    pub state: StateView,
    pub out: nat,
}

/// What an event makes of the state and of the rights that are out. One that is not out cannot be
/// given back.
pub open spec fn after_event(t: TasksView, event: TaskEvent) -> TasksView {
    match event {
        TaskEvent::Take => TasksView {
            state: marked(t.state, true),
            out: if t.state.busy {
                t.out
            } else {
                t.out + 1
            },
        },
        TaskEvent::GiveBack => if t.out > 0 {
            TasksView { state: marked(t.state, false), out: (t.out - 1) as nat }
        } else {
            t
        },
        TaskEvent::Other(state) => TasksView { state: marked(state, t.state.busy), out: t.out },
    }
}

/// What a course of events makes of the state and of the rights that are out.
pub open spec fn after_events(t: TasksView, events: Seq<TaskEvent>) -> TasksView
    decreases events.len(),
{
    if events.len() == 0 {
        t
    } else {
        after_event(after_events(t, events.drop_last()), events.last())
    }
}

/// Whatever happens, in whatever order, at most one right to run a task is out, and the state is
/// busy exactly while one is: another is given out once it was given back, and no sooner.
pub proof fn law_one_task_at_a_time(start: TasksView, events: Seq<TaskEvent>)
    requires
        !start.state.busy,
        start.out == 0,
    ensures
        after_events(start, events).out <= 1,
        after_events(start, events).state.busy == (after_events(start, events).out == 1),
    decreases events.len(),
{
    if events.len() > 0 {
        law_one_task_at_a_time(start, events.drop_last());
    }
}

} // verus!
