//! What the update service shows, step by step.

use crate::json::{
    bool_member, integer_member, lemma_member, member, object_tree, text_member, JsonTree,
};
use crate::laws::conversations::is_visible;
use crate::laws::ledger::{integer_or_nothing, text_or_nothing};
use crate::laws::text::law_only_blank_text_is_trimmed_away;
use crate::numerals::int_text;
use crate::text::{trimmed, view_opt};
use crate::update_service::{
    after_check, after_download, busy_fields, checking, download_notice, downloading, failed,
    idle_view, install_notice, marked, outcome_in, percentage, phase_text, ready, snapshot_fields,
    stage_text, tooltip_text, CheckOutcome, ChunkEffects, DownloadEnd, DownloadStage, InstallEnd,
    SnapshotView, StateView, UpdatePhase, UpdateSnapshot, UpdateState, BUSY_MESSAGE,
    DEMO_DOWNLOAD_MESSAGE, DEMO_RESTART_MESSAGE, NO_PACKAGE_MESSAGE,
};
use vstd::prelude::*;

verus! {

broadcast use vstd::string::group_string_axioms;

/// The two snapshots show the same.
pub open spec fn shows_the_same(a: UpdateSnapshot, b: UpdateSnapshot) -> bool {
    &&& a.phase == b.phase
    &&& view_opt(a.latest) == view_opt(b.latest)
    &&& a.percent == b.percent
    &&& view_opt(a.message) == view_opt(b.message)
    &&& a.checked_at == b.checked_at
}

/// A download is under way, or a package waits to be installed.
pub open spec fn is_under_way(s: UpdateSnapshot) -> bool {
    s.phase == UpdatePhase::Downloading || s.phase == UpdatePhase::ReadyToRestart
}

// ---------------------------------------------------------------------------
// Checks
// ---------------------------------------------------------------------------

/// At first nothing is shown.
pub proof fn law_what_is_shown_at_first(s: UpdateSnapshot)
    requires
        s@ == idle_view(),
    ensures
        s.phase == UpdatePhase::Idle,
        s.latest is None,
        s.percent is None,
        s.message is None,
        s.checked_at is None,
{
}

/// What is shown while a check runs.
pub open spec fn shows_a_check(before: UpdateSnapshot, after: UpdateSnapshot) -> bool {
    &&& is_under_way(before) ==> shows_the_same(before, after)
    &&& !is_under_way(before) ==> {
        &&& after.phase == UpdatePhase::Checking
        &&& view_opt(after.latest) == view_opt(before.latest)
        &&& after.percent is None
        &&& after.message is None
        &&& after.checked_at == before.checked_at
    }
}

/// While a check runs it is shown as running, with the version and the time from before, unless a
/// download is under way or waits to be installed: then nothing changes.
pub proof fn law_what_is_shown_during_a_check(before: UpdateSnapshot, after: UpdateSnapshot)
    requires
        after@ == checking(before@),
    ensures
        shows_a_check(before, after),
{
}

/// What is shown once a check has ended.
pub open spec fn shows_an_outcome(
    before: UpdateSnapshot,
    after: UpdateSnapshot,
    outcome: CheckOutcome,
    now: i64,
) -> bool {
    &&& is_under_way(before) ==> shows_the_same(before, after)
    &&& !is_under_way(before) ==> after.percent is None
    &&& !is_under_way(before) && !outcome.ok ==> {
        let offered = before.latest is Some && (before.phase == UpdatePhase::Checking
            || before.phase == UpdatePhase::Available);
        &&& after.checked_at == before.checked_at
        &&& offered ==> after.phase == UpdatePhase::Available && view_opt(after.latest)
            == view_opt(before.latest) && after.message is None
        &&& !offered ==> after.phase == UpdatePhase::Error && after.latest is None
        &&& !offered && outcome.message is Some ==> view_opt(after.message) == view_opt(
            outcome.message,
        )
        &&& !offered && outcome.message is None ==> view_opt(after.message) == view_opt(
            outcome.error,
        )
    }
    &&& !is_under_way(before) && outcome.ok ==> {
        let newer = outcome.has_update && outcome.latest is Some && is_visible(
            outcome.latest->0@,
        );
        &&& after.message is None
        &&& newer ==> after.phase == UpdatePhase::Available && after.latest is Some
            && after.latest->0@ == trimmed(outcome.latest->0@)
        &&& !newer ==> after.phase == UpdatePhase::UpToDate && after.latest is None
        &&& outcome.checked_at is Some ==> after.checked_at == outcome.checked_at
        &&& outcome.checked_at is None ==> after.checked_at == Some(now)
    }
}

/// What is shown after a check. A download that is under way or waits to be installed is left alone.
/// A failure keeps the version that was on offer; without one it is an error, with its message or
/// else what went wrong. A newer version that is not blank is on offer; anything else means that
/// this one is the latest. The time is that of the result, or else the present one.
pub proof fn law_what_is_shown_after_a_check(
    before: UpdateSnapshot,
    after: UpdateSnapshot,
    outcome: CheckOutcome,
    now: i64,
)
    requires
        after@ == after_check(before@, outcome@, now),
    ensures
        shows_an_outcome(before, after, outcome, now),
{
    if let Some(latest) = outcome.latest {
        law_only_blank_text_is_trimmed_away(latest@);
    }
}

/// A result says what its members of these names say; one that does not say that it succeeded did
/// not, and one that does not say that there is an update has none.
pub proof fn law_what_a_result_says(tree: JsonTree, outcome: CheckOutcome)
    requires
        outcome@ == outcome_in(tree),
    ensures
        outcome.ok <==> bool_member(tree, "ok"@) == Some(true),
        outcome.has_update <==> bool_member(tree, "hasUpdate"@) == Some(true),
        view_opt(outcome.latest) == text_member(tree, "latest"@),
        view_opt(outcome.message) == text_member(tree, "message"@),
        view_opt(outcome.error) == text_member(tree, "error"@),
        outcome.checked_at == integer_member(tree, "checkedAt"@),
{
}

// ---------------------------------------------------------------------------
// Downloads and installations
// ---------------------------------------------------------------------------

/// A download shows its version and no progress yet; its end shows the version with all of it there;
/// a failure shows what went wrong and keeps the version. None of them touches the time of the last
/// check.
pub proof fn law_what_is_shown_of_a_download(
    before: UpdateSnapshot,
    begun: UpdateSnapshot,
    ended: UpdateSnapshot,
    broken: UpdateSnapshot,
    latest: Seq<char>,
    message: Seq<char>,
)
    requires
        begun@ == downloading(before@, latest),
        ended@ == ready(before@, latest),
        broken@ == failed(before@, message),
    ensures
        begun.phase == UpdatePhase::Downloading && ended.phase == UpdatePhase::ReadyToRestart
            && broken.phase == UpdatePhase::Error,
        begun.latest is Some && begun.latest->0@ == latest,
        ended.latest is Some && ended.latest->0@ == latest,
        view_opt(broken.latest) == view_opt(before.latest),
        begun.percent is None && ended.percent == Some(100u8) && broken.percent is None,
        begun.message is None && ended.message is None,
        broken.message is Some && broken.message->0@ == message,
        begun.checked_at == before.checked_at,
        ended.checked_at == before.checked_at,
        broken.checked_at == before.checked_at,
{
}

/// The progress is what part of the whole is there, in whole percent rounded down, and never more
/// than all of it. Without a size, or with none, there is no progress to tell.
pub proof fn law_what_the_progress_is(downloaded: u64, total: Option<u64>)
    ensures
        total is None || total == Some(0u64) ==> percentage(downloaded, total) is None,
        total matches Some(t) ==> (t > 0 ==> (percentage(downloaded, total) matches Some(p) && p <= 100
            && (downloaded >= t ==> p == 100) && (downloaded < t ==> p * t <= downloaded * 100 && downloaded
            * 100 < (p + 1) * t))),
{
    if let Some(t) = total {
        if t > 0 {
            let q = downloaded * 100 / t as int;
            assert(q * t <= downloaded * 100 && downloaded * 100 < (q + 1) * t) by (nonlinear_arith)
                requires
                    q == downloaded * 100 / t as int,
                    t > 0,
            ;
            assert(q >= 0) by (nonlinear_arith)
                requires
                    q == downloaded * 100 / t as int,
                    t > 0,
                    downloaded >= 0,
            ;
            if downloaded >= t {
                assert(q >= 100) by (nonlinear_arith)
                    requires
                        downloaded * 100 < (q + 1) * t,
                        downloaded >= t,
                        t > 0,
                ;
            } else {
                assert(q < 100) by (nonlinear_arith)
                    requires
                        q * t <= downloaded * 100,
                        downloaded < t,
                        t > 0,
                ;
            }
        }
    }
}

/// What the tray says names the progress, where there is any to tell.
pub proof fn law_what_the_tray_says(percent: Option<u8>)
    ensures
        percent matches Some(p) ==> tooltip_text(percent) == "正在下载更新 "@ + int_text(p as int)
            + "%"@,
        percent is None ==> tooltip_text(percent) == "正在下载更新…"@,
{
}

/// A chunk that does not change the progress, or comes without a size, changes nothing. One that
/// does changes the progress that is shown and nothing else that is shown; it is the first report
/// of a download or not, and the menu is built anew where it begins another ten percent.
pub proof fn law_what_a_chunk_changes(
    before: UpdateState,
    after: UpdateState,
    downloaded: u64,
    total: Option<u64>,
    r: ChunkEffects,
)
    requires
        r.tooltip@ == tooltip_text(percentage(downloaded, total)),
        ({
            let p = percentage(downloaded, total);
            if p is None || p == before@.snapshot.percent {
                &&& r.changed is None
                &&& !r.first_report
                &&& !r.rebuild_menu
                &&& after@ == before@
            } else {
                let shown = SnapshotView { percent: p, ..before@.snapshot };
                &&& r.changed matches Some(s) && s@ == shown
                &&& r.first_report == !before@.progress_reported
                &&& r.rebuild_menu == (before@.menu_bucket != p->0 / 10)
                &&& after@ == StateView {
                    snapshot: shown,
                    busy: before@.busy,
                    menu_bucket: p->0 / 10,
                    progress_reported: true,
                }
            }
        }),
    ensures
        after.busy == before.busy,
        after.snapshot.phase == before.snapshot.phase,
        view_opt(after.snapshot.latest) == view_opt(before.snapshot.latest),
        view_opt(after.snapshot.message) == view_opt(before.snapshot.message),
        after.snapshot.checked_at == before.snapshot.checked_at,
        ({
            let p = percentage(downloaded, total);
            let news = p is Some && p != before.snapshot.percent;
            &&& r.changed is Some <==> news
            &&& news ==> shows_the_same(r.changed->0, after.snapshot)
            &&& after.snapshot.percent == if news {
                p
            } else {
                before.snapshot.percent
            }
            &&& r.first_report <==> news && !before.progress_reported
            &&& r.rebuild_menu <==> news && before.menu_bucket != p->0 / 10
            &&& after.progress_reported <==> news || before.progress_reported
            &&& after.menu_bucket == if news {
                p->0 / 10
            } else {
                before.menu_bucket
            }
        }),
{
}

/// The state once a download has ended.
pub open spec fn ends_a_download(
    before: UpdateState,
    after: UpdateState,
    end: DownloadEnd,
    now: i64,
) -> bool {
    &&& !after.busy
    &&& after.progress_reported == before.progress_reported
    &&& end matches DownloadEnd::Package(version) ==> {
        &&& after.snapshot.phase == UpdatePhase::ReadyToRestart
        &&& after.snapshot.latest is Some && after.snapshot.latest->0@ == version@
        &&& after.snapshot.percent == Some(100u8)
        &&& after.snapshot.message is None
        &&& after.snapshot.checked_at == before.snapshot.checked_at
        &&& after.menu_bucket == 255
    }
    &&& end is NothingNew ==> {
        &&& after.menu_bucket == before.menu_bucket
        &&& is_under_way(before.snapshot) ==> shows_the_same(before.snapshot, after.snapshot)
        &&& !is_under_way(before.snapshot) ==> after.snapshot.phase == UpdatePhase::UpToDate
            && after.snapshot.latest is None && after.snapshot.message is None
            && after.snapshot.checked_at == Some(now)
    }
    &&& end matches DownloadEnd::Failed(message) ==> {
        &&& after.snapshot.phase == UpdatePhase::Error
        &&& view_opt(after.snapshot.latest) == view_opt(before.snapshot.latest)
        &&& after.snapshot.percent is None
        &&& after.snapshot.message is Some && after.snapshot.message->0@ == message@
        &&& after.snapshot.checked_at == before.snapshot.checked_at
        &&& after.menu_bucket == 255
    }
}

/// However a download ends, the right to run a task is given back. A package waits to be installed,
/// nothing new means that this version is the latest, and a failure says what went wrong.
pub proof fn law_how_a_download_ends(
    before: UpdateState,
    after: UpdateState,
    end: DownloadEnd,
    now: i64,
)
    requires
        after@ == after_download(before@, end, now),
    ensures
        ends_a_download(before, after, end, now),
{
}

/// The text ends with the error as it came, behind what went wrong.
pub open spec fn quotes(said: Seq<char>, head: Seq<char>, error: Seq<char>) -> bool {
    said == head + error
}

/// What is said of a failed download tells at which step it failed, and quotes the error.
pub proof fn law_what_is_said_of_a_failed_download(stage: DownloadStage, error: Seq<char>)
    ensures
        stage is Proxy ==> quotes(stage_text(stage, error), "更新代理地址无效："@, error),
        stage is Setup ==> quotes(stage_text(stage, error), "初始化更新器失败："@, error),
        stage is Check ==> quotes(stage_text(stage, error), "检查更新包失败："@, error),
        stage is Fetch ==> quotes(stage_text(stage, error), "下载更新包失败："@, error),
{
}

/// The user is told of a package that is there, with its version, and of a failure, with its reason;
/// not of a download that found nothing new, nor of an installation that went well.
pub proof fn law_what_the_user_is_told(end: DownloadEnd, version: Seq<char>, install: InstallEnd)
    ensures
        end matches DownloadEnd::Package(v) ==> download_notice(end) == Some(
            (
                "更新已就绪"@,
                "v"@ + v@ + " 已下载完成，点「重启以完成升级」后生效"@,
            ),
        ),
        end is NothingNew ==> download_notice(end) is None,
        end matches DownloadEnd::Failed(message) ==> download_notice(end) == Some(
            ("更新下载失败"@, message@),
        ),
        install is Relaunched ==> install_notice(version, install) is None,
        install matches InstallEnd::NotRelaunched(error) ==> install_notice(version, install)
            == Some(
            (
                "更新已安装"@,
                "v"@ + version + " 已安装，请手动重启应用完成升级："@ + error@,
            ),
        ),
        install matches InstallEnd::Failed(error) ==> install_notice(version, install) == Some(
            ("更新安装失败"@, "安装 v"@ + version + " 失败："@ + error@),
        ),
{
}

/// What is said where a task is turned away.
pub proof fn law_what_is_said_to_those_turned_away()
    ensures
        BUSY_MESSAGE@ == "更新任务正在进行中，请稍候"@,
        NO_PACKAGE_MESSAGE@ == "没有可安装的更新包，请先下载更新包"@,
        DEMO_DOWNLOAD_MESSAGE@ == "演示模式已跳过更新下载"@,
        DEMO_RESTART_MESSAGE@ == "演示模式已跳过更新安装"@,
{
}

/// To take or give back the right to run a task changes the busy mark and nothing else.
pub proof fn law_only_the_busy_mark_changes(before: UpdateState, after: UpdateState, busy: bool)
    requires
        after@ == marked(before@, busy),
    ensures
        after.busy == busy,
        shows_the_same(before.snapshot, after.snapshot),
        after.menu_bucket == before.menu_bucket,
        after.progress_reported == before.progress_reported,
{
}

// ---------------------------------------------------------------------------
// What is sent out
// ---------------------------------------------------------------------------

/// What is sent out of a snapshot holds each of its fields under its name, and the phase by its
/// name; no two phases share one.
pub proof fn law_a_snapshot_is_sent_whole(s: UpdateSnapshot)
    ensures
        ({
            let sent = object_tree(snapshot_fields(s@));
            &&& member(sent, "phase"@) == Some(JsonTree::Text(phase_text(s.phase)))
            &&& member(sent, "latest"@) == Some(text_or_nothing(s.latest))
            &&& member(sent, "percent"@) == Some(
                match s.percent {
                    Some(p) => JsonTree::Number(Some(p as i64)),
                    None => JsonTree::Null,
                },
            )
            &&& member(sent, "message"@) == Some(text_or_nothing(s.message))
            &&& member(sent, "checkedAt"@) == Some(integer_or_nothing(s.checked_at))
        }),
{
    let fields = snapshot_fields(s@);
    reveal_strlit("phase");
    reveal_strlit("latest");
    reveal_strlit("percent");
    reveal_strlit("message");
    reveal_strlit("checkedAt");
    assert("phase"@.len() == 5 && "latest"@.len() == 6 && "percent"@.len() == 7);
    assert("message"@.len() == 7 && "checkedAt"@.len() == 9);
    assert("percent"@[0] != "message"@[0]);
    lemma_member(fields, 0);
    lemma_member(fields, 1);
    lemma_member(fields, 2);
    lemma_member(fields, 3);
    lemma_member(fields, 4);
}

/// Each phase goes by a name of its own.
pub proof fn law_phases_have_names_of_their_own(a: UpdatePhase, b: UpdatePhase)
    ensures
        phase_text(a) == phase_text(b) ==> a == b,
        a == UpdatePhase::Idle ==> phase_text(a) == "idle"@,
        a == UpdatePhase::Checking ==> phase_text(a) == "checking"@,
        a == UpdatePhase::UpToDate ==> phase_text(a) == "upToDate"@,
        a == UpdatePhase::Available ==> phase_text(a) == "available"@,
        a == UpdatePhase::Downloading ==> phase_text(a) == "downloading"@,
        a == UpdatePhase::ReadyToRestart ==> phase_text(a) == "readyToRestart"@,
        a == UpdatePhase::Error ==> phase_text(a) == "error"@,
{
    reveal_strlit("idle");
    reveal_strlit("checking");
    reveal_strlit("upToDate");
    reveal_strlit("available");
    reveal_strlit("downloading");
    reveal_strlit("readyToRestart");
    reveal_strlit("error");
    assert("idle"@[0] == 'i' && "checking"@[0] == 'c' && "upToDate"@[0] == 'u');
    assert("available"@[0] == 'a' && "downloading"@[0] == 'd');
    assert("readyToRestart"@[0] == 'r' && "error"@[0] == 'e');
}

/// The result of a check that was turned away says that it failed because another task is running,
/// and names the page of the release.
pub proof fn law_a_refused_check_says_so(release_url: Seq<char>)
    ensures
        ({
            let sent = object_tree(busy_fields(release_url));
            &&& member(sent, "ok"@) == Some(JsonTree::Bool(false))
            &&& member(sent, "error"@) == Some(JsonTree::Text(BUSY_MESSAGE@))
            &&& member(sent, "message"@) == Some(JsonTree::Text(BUSY_MESSAGE@))
            &&& member(sent, "releaseUrl"@) == Some(JsonTree::Text(release_url))
        }),
{
    let fields = busy_fields(release_url);
    reveal_strlit("ok");
    reveal_strlit("error");
    reveal_strlit("message");
    reveal_strlit("releaseUrl");
    assert("ok"@.len() == 2 && "error"@.len() == 5 && "message"@.len() == 7 && "releaseUrl"@.len()
        == 10);
    lemma_member(fields, 0);
    lemma_member(fields, 1);
    lemma_member(fields, 2);
    lemma_member(fields, 3);
}

} // verus!
