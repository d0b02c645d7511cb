//! What the functions on updates and on the error log give back.

use crate::error_log::{append_line, logged, record, truncate_detail, LogPlan, LogWrite};
use crate::json::{json_document, json_tree, member, JsonTree};
use crate::laws::conversations::is_visible;
use crate::laws::ledger::{integer_or_nothing, text_or_nothing};
use crate::laws::logging::{
    law_how_a_line_gets_into_the_log, law_how_much_of_a_detail_is_kept,
    law_what_a_line_of_the_log_reads_as,
};
use crate::laws::releases::{
    follows_manifest, follows_network, follows_release_page, is_first_location, is_later,
    is_location, law_a_check_report_is_sent_whole, law_how_a_check_begins, law_how_versions_compare,
    law_what_a_manifest_leads_to, law_what_the_network_leads_to, law_what_the_release_page_leads_to,
    law_which_address_is_asked, law_which_tag_a_redirection_names,
};
use crate::laws::service::{
    ends_a_download, law_a_refused_check_says_so, law_a_snapshot_is_sent_whole,
    law_how_a_download_ends, law_what_a_chunk_changes, law_what_is_shown_after_a_check,
    law_what_is_shown_during_a_check, law_what_the_progress_is, shows_a_check, shows_an_outcome,
    shows_the_same,
};
use crate::laws::sources::{
    are_mirrors_of, is_source_of, law_the_former_repository_gives_way,
    law_what_is_stored_of_a_source, law_which_mirrors_are_used, law_which_proxy_is_used,
    law_which_source_is_used,
};
use crate::text::{byte_len, contains_text, last_piece, trimmed, view_opt, view_ref, views, CharSet};
use crate::update::check::{
    all_candidates, header_views, latest_tag, remember_report, report_value, stored_report, tag_of,
    update_check, CachedCheck, CheckReport, CheckStart, CheckStep, HttpRequest, TagError,
    UpdateCheck,
};
use crate::update::config::{
    clean_config, configured_proxy, load_github_config, mirrors_from_list, read_fields,
    release_page, release_url, resolve_config, save_github_config, ConfigFields, GithubConfig,
    LoadedConfig, APP_VERSION,
};
use crate::update::versions::{compare_versions, manifest_urls};
use crate::update_service::{
    add_chunk, advance_progress, begin_download, busy_result, check, fail, finish_check,
    finish_download, finish_restart, mark_ready_to_restart, on_download_chunk, percent_of,
    phase_text, restart, should_rebuild_menu, snapshot, snapshot_value, start_download,
    take_package_for_install, BusyGuard, CheckOutcome, ChunkEffects, DownloadEnd, InstallEnd,
    Notice, UpdatePhase, UpdateSnapshot, UpdateState,
};
use serde_json::Value;
use vstd::prelude::*;

verus! {

broadcast use vstd::string::group_string_axioms;

// ---------------------------------------------------------------------------
// The error log
// ---------------------------------------------------------------------------

/// What is recorded of an error goes to the log of the store: one line that reads as its entry, at
/// the end while fewer than two hundred lines are there, and else by writing the log anew.
pub proof fn law_what_is_recorded(
    store_dir: &str,
    existing: Option<&str>,
    kind: &str,
    message: &str,
    detail: &str,
    at_ms: i64,
    os: &str,
    r: LogPlan,
)
    requires
        call_ensures(record, (store_dir, existing, kind, message, detail, at_ms, os), r),
    ensures
        r.path.base@ == store_dir@,
        r.path.names@.len() == 1,
        r.path.names@[0]@ == "error.log"@,
        !r.line@.contains('\n'),
        json_document(r.line@) is Some,
        ({
            let entry = json_document(r.line@)->0;
            &&& member(entry, "ts"@) == Some(JsonTree::Number(Some(at_ms)))
            &&& member(entry, "message"@) == Some(JsonTree::Text(message@))
            &&& member(entry, "os"@) == Some(JsonTree::Text(os@))
            &&& member(entry, "appVersion"@) == Some(JsonTree::Text(APP_VERSION@))
            &&& member(entry, "kind"@) == Some(
                JsonTree::Text(
                    if kind@ == "frontend_crash"@ || kind@ == "frontend_unhandled"@ {
                        kind@
                    } else {
                        "backend"@
                    },
                ),
            )
            &&& byte_len(detail@) <= 4096 ==> member(entry, "detail"@) == Some(
                JsonTree::Text(detail@),
            )
        }),
        logged(view_ref(existing)).len() < 200 ==> (r.write matches LogWrite::Append(text) && text@
            == r.line@ + seq!['\n']),
        logged(view_ref(existing)).len() >= 200 ==> r.write is Rewrite,
{
    assert(views(r.path.names@).len() == r.path.names@.len());
    assert(views(r.path.names@)[0] == r.path.names@[0]@);
    law_what_a_line_of_the_log_reads_as(r.line@, kind@, message@, detail@, at_ms, os@);
    law_how_a_line_gets_into_the_log(logged(view_ref(existing)), r.line@, r.write);
    crate::error_log::law_kept_details_fit(detail@);
}

/// How a line gets into the log that is there.
pub proof fn law_how_a_line_is_appended(existing: Option<&str>, line: &str, r: LogWrite)
    requires
        call_ensures(append_line, (existing, line), r),
    ensures
        ({
            let lines = logged(view_ref(existing));
            &&& lines.len() < 200 ==> (r matches LogWrite::Append(text) && text@ == line@
                + seq!['\n'])
            &&& lines.len() >= 200 ==> (r matches LogWrite::Rewrite(text) && text@
                == crate::error_log::terminated(lines.skip(lines.len() - 199)) + line@ + seq!['\n'])
        }),
{
    law_how_a_line_gets_into_the_log(logged(view_ref(existing)), line@, r);
}

/// As much of a detail is kept as fits, from its start.
pub proof fn law_a_detail_is_cut_off(detail: &str, r: String)
    requires
        call_ensures(truncate_detail, (detail,), r),
    ensures
        r@.len() <= detail@.len(),
        r@ == detail@.take(r@.len() as int),
        byte_len(r@) <= 4096,
        forall|m: int| r@.len() < m <= detail@.len() ==> byte_len(#[trigger] detail@.take(m)) > 4096,
{
    law_how_much_of_a_detail_is_kept(detail@);
}

// ---------------------------------------------------------------------------
// Sources
// ---------------------------------------------------------------------------

/// The source that the fields of a configuration name.
pub proof fn law_the_source_of_a_configuration(fields: &ConfigFields, r: GithubConfig)
    requires
        call_ensures(clean_config, (fields,), r),
    ensures
        is_source_of(*fields, r),
{
    law_which_source_is_used(*fields, r);
}

/// The source in use, with the former repository replaced, and whether the file is written anew.
pub proof fn law_the_source_in_use(fields: &ConfigFields, plain: GithubConfig, r: LoadedConfig)
    requires
        call_ensures(clean_config, (fields,), plain),
        call_ensures(resolve_config, (fields,), r),
    ensures
        ({
            let former = plain.owner@ == "changexbc"@ && plain.repo@ == "wb-switch"@;
            &&& r.config.owner@ == plain.owner@
            &&& r.config.repo@ == if former {
                "workbuddy-switch-tidy"@
            } else {
                plain.repo@
            }
            &&& r.config.proxy@ == plain.proxy@
            &&& r.rewrite <==> fields.has_token || former
            &&& are_mirrors_of(fields.mirrors, r.config.mirrors@)
        }),
{
    law_the_former_repository_gives_way(*fields, plain, r);
}

/// The mirrors of a list.
pub proof fn law_the_mirrors_of_a_list(list: &Option<Vec<Option<String>>>, r: Vec<String>)
    requires
        call_ensures(mirrors_from_list, (list,), r),
    ensures
        are_mirrors_of(*list, r@),
{
    law_which_mirrors_are_used(*list, r@);
}

/// The configured proxy is used unless it is blank.
pub proof fn law_the_configured_proxy(config: &GithubConfig, r: Option<String>)
    requires
        call_ensures(configured_proxy, (config,), r),
    ensures
        r is Some <==> is_visible(config.proxy@),
        r is Some ==> r->0@ == trimmed(config.proxy@),
{
    law_which_proxy_is_used(None, config.proxy@);
}

/// The public page of a source without an owner, or without a name, is that of the application.
pub proof fn law_the_public_page(config: &GithubConfig, r: String)
    requires
        call_ensures(release_url, (config,), r),
    ensures
        r@ == release_page(
            if config.owner@.len() > 0 {
                config.owner@
            } else {
                "heylumen"@
            },
            if config.repo@.len() > 0 {
                config.repo@
            } else {
                "workbuddy-switch-tidy"@
            },
        ),
{
}

// ---------------------------------------------------------------------------
// Checks
// ---------------------------------------------------------------------------

/// Versions are compared number by number.
pub proof fn law_comparing_versions(a: &str, b: &str, r: i64)
    requires
        call_ensures(compare_versions, (a, b), r),
    ensures
        r > 0 <==> is_later(a@, b@),
        r < 0 <==> is_later(b@, a@),
        -1 <= r <= 1,
{
    law_how_versions_compare(a@, b@);
}

/// What the answer to a request for a manifest leads to; a release that is found is offered exactly
/// where its version is later than this one.
pub proof fn law_after_a_manifest(check: &mut UpdateCheck, answer: &Value, now: i64, step: CheckStep)
    requires
        call_ensures(UpdateCheck::on_manifest, (check, answer, now), step),
        old(check)@.valid(),
        old(check).stage is Manifest,
    ensures
        follows_manifest(*old(check), *final(check), step, json_tree(*answer), now),
        step matches CheckStep::Done(CheckReport::Found(f)) ==> f.current@ == APP_VERSION@ && (
        f.has_update <==> is_later(f.latest@, f.current@)) && f.checked_at == now,
{
    law_what_a_manifest_leads_to(*old(check), *final(check), step, json_tree(*answer), now);
    if let CheckStep::Done(CheckReport::Found(f)) = step {
        law_how_versions_compare(f.latest@, f.current@);
    }
}

/// What the page of the release leads to; the same holds of what is found there.
pub proof fn law_after_the_release_page(
    check: &mut UpdateCheck,
    status: u16,
    headers: &Vec<(String, String)>,
    body: &str,
    now: i64,
    step: CheckStep,
)
    requires
        call_ensures(UpdateCheck::on_redirect, (check, status, headers, body, now), step),
    ensures
        follows_release_page(
            *old(check),
            *final(check),
            step,
            tag_of(status, header_views(headers@), body@),
        ),
        step matches CheckStep::Done(CheckReport::Found(f)) ==> f.current@ == APP_VERSION@ && (
        f.has_update <==> is_later(f.latest@, f.current@)) && f.checked_at == now,
{
    let tag = tag_of(status, header_views(headers@), body@);
    law_what_the_release_page_leads_to(*old(check), *final(check), step, tag, now);
    if let CheckStep::Done(CheckReport::Found(f)) = step {
        law_how_versions_compare(f.latest@, f.current@);
    }
}

/// What the network leads to; the same holds of what is found there.
pub proof fn law_after_the_network(
    check: &mut UpdateCheck,
    answer: &Value,
    now: i64,
    step: CheckStep,
)
    requires
        call_ensures(UpdateCheck::on_cdn, (check, answer, now), step),
        old(check)@.valid(),
        old(check).stage is Cdn,
    ensures
        follows_network(*old(check), *final(check), step, json_tree(*answer), now),
        step matches CheckStep::Done(CheckReport::Found(f)) ==> f.current@ == APP_VERSION@ && (
        f.has_update <==> is_later(f.latest@, f.current@)) && f.checked_at == now,
{
    law_what_the_network_leads_to(*old(check), *final(check), step, json_tree(*answer), now);
    if let CheckStep::Done(CheckReport::Found(f)) = step {
        law_how_versions_compare(f.latest@, f.current@);
    }
}

/// A stored result that is less than six hours old is handed out, unless a new one is asked for;
/// else the sources are asked, through the proxy that is asked for or the configured one.
pub proof fn law_when_the_sources_are_asked(
    cache: &Option<CachedCheck>,
    force: bool,
    now: i64,
    config: &GithubConfig,
    proxy: Option<String>,
    os: &str,
    arch: &str,
    r: CheckStart,
)
    requires
        call_ensures(update_check, (cache, force, now, config, proxy, os, arch), r),
    ensures
        ({
            let good = !force && *cache is Some && now - (*cache)->0.checked_at < 21_600;
            &&& good ==> (r matches CheckStart::Cached(report) && report@ == (*cache)->0.report@)
            &&& !good ==> (r matches CheckStart::Ask(check, used) && check.owner@ == config.owner@
                && check.repo@ == config.repo@ && views(check.urls@) == all_candidates(
                manifest_urls(config.owner@, config.repo@, os@, arch@),
                views(config.mirrors@),
            ) && check.stage is Manifest && check.next == 0 && check.attempt == 0
                && check.failures@.len() == 0 && (proxy is Some ==> view_opt(used) == view_opt(
                proxy,
            )) && (proxy is None ==> (used is Some <==> is_visible(config.proxy@))) && (proxy is None
                && used is Some ==> used->0@ == trimmed(config.proxy@)))
        }),
{
    law_which_proxy_is_used(view_opt(proxy), config.proxy@);
    if let CheckStart::Ask(check, used) = r {
        law_how_a_check_begins(
            check,
            config.owner@,
            config.repo@,
            views(config.mirrors@),
            os@,
            arch@,
        );
    }
}

/// A document is asked for everywhere but at the page of the release, whose redirection is read and
/// not followed.
pub proof fn law_how_sources_are_asked(check: &UpdateCheck, r: HttpRequest)
    requires
        call_ensures(UpdateCheck::request, (check,), r),
        check@.valid(),
    ensures
        check.stage is Manifest ==> r.url@ == check.urls@[check.next as int]@,
        check.stage is Redirect ==> r.url@ == release_page(check.owner@, check.repo@) && r.accept@
            == "text/html"@ && !r.follow_redirects,
        !(check.stage is Redirect) ==> r.accept@ == "application/json"@ && r.follow_redirects,
{
    law_which_address_is_asked(*check);
}

// ---------------------------------------------------------------------------
// The update service
// ---------------------------------------------------------------------------

/// The state apart from what is shown is as it was.
pub open spec fn keeps_marks(before: UpdateState, after: UpdateState) -> bool {
    &&& after.menu_bucket == before.menu_bucket
    &&& after.progress_reported == before.progress_reported
}

/// A check is turned away, with nothing changed, while another task runs; else it is shown as
/// running and the state is busy.
pub proof fn law_a_check_waits_for_its_turn(
    state: &mut UpdateState,
    r: Option<(BusyGuard, UpdateSnapshot)>,
)
    requires
        call_ensures(check, (state,), r),
    ensures
        r is Some <==> !old(state).busy,
        final(state).busy,
        keeps_marks(*old(state), *final(state)),
        old(state).busy ==> shows_the_same(old(state).snapshot, final(state).snapshot),
        !old(state).busy ==> shows_a_check(old(state).snapshot, final(state).snapshot),
        r matches Some((_, shown)) ==> shows_the_same(shown, final(state).snapshot),
{
    if !old(state).busy {
        law_what_is_shown_during_a_check(old(state).snapshot, final(state).snapshot);
    }
}

/// A check that has ended is shown by its result, and leaves the state free.
pub proof fn law_a_check_ends_by_its_result(
    state: &mut UpdateState,
    guard: BusyGuard,
    result: &Value,
    now: i64,
    outcome: CheckOutcome,
    r: UpdateSnapshot,
)
    requires
        call_ensures(finish_check, (state, guard, result, now), r),
        call_ensures(crate::update_service::read_outcome, (result,), outcome),
    ensures
        !final(state).busy,
        keeps_marks(*old(state), *final(state)),
        shows_an_outcome(old(state).snapshot, final(state).snapshot, outcome, now),
        shows_the_same(r, final(state).snapshot),
{
    law_what_is_shown_after_a_check(old(state).snapshot, final(state).snapshot, outcome, now);
}

/// A download begins with its version shown, and no progress.
pub proof fn law_a_download_begins(state: &mut UpdateState, latest: &str, r: UpdateSnapshot)
    requires
        call_ensures(begin_download, (state, latest), r),
    ensures
        final(state).snapshot.phase == UpdatePhase::Downloading,
        final(state).snapshot.latest is Some,
        final(state).snapshot.latest->0@ == latest@,
        final(state).snapshot.percent is None,
        final(state).snapshot.message is None,
        final(state).snapshot.checked_at == old(state).snapshot.checked_at,
        final(state).busy == old(state).busy,
        final(state).menu_bucket == 0,
        !final(state).progress_reported,
        shows_the_same(r, final(state).snapshot),
{
}

/// A download is turned away in the demonstration mode, with nothing changed, and while another task
/// runs; else it has the right to run.
pub proof fn law_a_download_waits_for_its_turn(
    state: &mut UpdateState,
    demo: bool,
    r: Result<BusyGuard, String>,
)
    requires
        call_ensures(start_download, (state, demo), r),
    ensures
        r is Ok <==> !demo && !old(state).busy,
        final(state).busy == if demo {
            old(state).busy
        } else {
            true
        },
        keeps_marks(*old(state), *final(state)),
        shows_the_same(old(state).snapshot, final(state).snapshot),
        r matches Err(e) ==> e@ == if demo {
            "演示模式已跳过更新下载"@
        } else {
            "更新任务正在进行中，请稍候"@
        },
{
}

/// A download ends as it ended, and leaves the state free; the user is told of a package or of a
/// failure.
pub proof fn law_a_download_is_over(
    state: &mut UpdateState,
    guard: BusyGuard,
    end: DownloadEnd,
    now: i64,
    r: (UpdateSnapshot, Option<Notice>),
)
    requires
        call_ensures(finish_download, (state, guard, end, now), r),
    ensures
        ends_a_download(*old(state), *final(state), end, now),
        shows_the_same(r.0, final(state).snapshot),
        r.1 is Some <==> !(end is NothingNew),
        end matches DownloadEnd::Failed(message) ==> r.1->0.title@ == "更新下载失败"@
            && r.1->0.body@ == message@,
        end matches DownloadEnd::Package(version) ==> r.1->0.title@ == "更新已就绪"@ && r.1->0.body@
            == "v"@ + version@ + " 已下载完成，点「重启以完成升级」后生效"@,
{
    law_how_a_download_ends(*old(state), *final(state), end, now);
}

/// What a chunk of the package changes.
pub proof fn law_a_chunk_moves_the_progress(
    state: &mut UpdateState,
    downloaded: u64,
    total: Option<u64>,
    percent: Option<u8>,
    r: ChunkEffects,
)
    requires
        call_ensures(on_download_chunk, (state, downloaded, total), r),
        call_ensures(percent_of, (downloaded, total), percent),
    ensures
        final(state).busy == old(state).busy,
        final(state).snapshot.phase == old(state).snapshot.phase,
        view_opt(final(state).snapshot.latest) == view_opt(old(state).snapshot.latest),
        view_opt(final(state).snapshot.message) == view_opt(old(state).snapshot.message),
        final(state).snapshot.checked_at == old(state).snapshot.checked_at,
        ({
            let news = percent is Some && percent != old(state).snapshot.percent;
            &&& r.changed is Some <==> news
            &&& news ==> shows_the_same(r.changed->0, final(state).snapshot)
            &&& final(state).snapshot.percent == if news {
                percent
            } else {
                old(state).snapshot.percent
            }
            &&& r.first_report <==> news && !old(state).progress_reported
            &&& r.rebuild_menu <==> news && old(state).menu_bucket != percent->0 / 10
        }),
{
    law_what_a_chunk_changes(*old(state), *final(state), downloaded, total, r);
}

/// The progress that is told is what part of the whole is there, rounded down; a chunk more is a
/// chunk more, as far as can be counted.
pub proof fn law_the_progress_that_is_told(
    downloaded: u64,
    total: u64,
    chunk: u64,
    percent: Option<u8>,
    more: u64,
)
    requires
        call_ensures(percent_of, (downloaded, Some(total)), percent),
        call_ensures(add_chunk, (downloaded, chunk), more),
    ensures
        percent is Some <==> total > 0,
        percent matches Some(p) ==> p <= 100 && (downloaded >= total ==> p == 100) && (downloaded
            < total ==> p * total <= downloaded * 100 && downloaded * 100 < (p + 1) * total),
        more >= downloaded && more >= chunk,
        more < u64::MAX ==> more == downloaded + chunk,
        more == u64::MAX ==> downloaded + chunk >= u64::MAX,
{
    law_what_the_progress_is(downloaded, Some(total));
}

/// The menu is built anew where another ten percent have begun.
pub proof fn law_when_the_menu_is_built_anew(state: &mut UpdateState, percent: u8, r: bool)
    requires
        call_ensures(should_rebuild_menu, (state, percent), r),
    ensures
        r <==> old(state).menu_bucket != percent / 10,
        final(state).menu_bucket == percent / 10,
        final(state).busy == old(state).busy,
        final(state).progress_reported == old(state).progress_reported,
        shows_the_same(old(state).snapshot, final(state).snapshot),
{
}

/// A package is handed out for installation where there is one, no other task runs and this is no
/// demonstration; where it is refused it stays, and nothing changes.
pub proof fn law_when_a_package_is_installed<T>(
    state: &mut UpdateState,
    slot: &mut Option<T>,
    demo: bool,
    r: Result<(BusyGuard, T), String>,
)
    requires
        call_ensures(restart::<T>, (state, slot, demo), r),
    ensures
        r is Ok <==> !demo && *old(slot) is Some && !old(state).busy,
        r matches Ok((_, package)) ==> *old(slot) == Some(package),
        r is Ok ==> *final(slot) is None && final(state).busy,
        r is Err ==> *final(slot) == *old(slot) && final(state).busy == old(state).busy,
        keeps_marks(*old(state), *final(state)),
        shows_the_same(old(state).snapshot, final(state).snapshot),
        r matches Err(e) ==> e@ == if demo {
            "演示模式已跳过更新安装"@
        } else if *old(slot) is None {
            "没有可安装的更新包，请先下载更新包"@
        } else {
            "更新任务正在进行中，请稍候"@
        },
{
}

/// An installation leaves the state free. One that went well says nothing; any other is shown as an
/// error that quotes what went wrong, which the user is told too.
pub proof fn law_an_installation_is_over(
    state: &mut UpdateState,
    guard: BusyGuard,
    version: &str,
    end: InstallEnd,
    r: Option<(UpdateSnapshot, Notice)>,
)
    requires
        call_ensures(finish_restart, (state, guard, version, end), r),
    ensures
        !final(state).busy,
        r is None <==> end is Relaunched,
        end is Relaunched ==> shows_the_same(old(state).snapshot, final(state).snapshot),
        !(end is Relaunched) ==> {
            let said = match end {
                InstallEnd::NotRelaunched(error) => "v"@ + version@
                    + " 已安装，请手动重启应用完成升级："@ + error@,
                InstallEnd::Failed(error) => "安装 v"@ + version@ + " 失败："@ + error@,
                InstallEnd::Relaunched => Seq::empty(),
            };
            &&& final(state).snapshot.phase == UpdatePhase::Error
            &&& final(state).snapshot.message is Some && final(state).snapshot.message->0@ == said
            &&& view_opt(final(state).snapshot.latest) == view_opt(old(state).snapshot.latest)
            &&& (r->0).1.body@ == said
            &&& shows_the_same((r->0).0, final(state).snapshot)
        },
{
}

/// What is shown is what the state shows.
pub proof fn law_the_snapshot_is_that_of_the_state(state: &UpdateState, r: UpdateSnapshot)
    requires
        call_ensures(snapshot, (state,), r),
    ensures
        shows_the_same(r, state.snapshot),
{
}

/// A package that is there is shown with its version and all of it; a failure with what went wrong
/// and the version from before. Both leave no progress for the menu.
pub proof fn law_the_end_of_a_step_is_shown(
    state: &mut UpdateState,
    latest: &str,
    r: UpdateSnapshot,
)
    requires
        call_ensures(mark_ready_to_restart, (state, latest), r),
    ensures
        final(state).snapshot.phase == UpdatePhase::ReadyToRestart,
        final(state).snapshot.latest is Some && final(state).snapshot.latest->0@ == latest@,
        final(state).snapshot.percent == Some(100u8),
        final(state).snapshot.message is None,
        final(state).snapshot.checked_at == old(state).snapshot.checked_at,
        final(state).menu_bucket == 255,
        final(state).busy == old(state).busy,
        final(state).progress_reported == old(state).progress_reported,
        shows_the_same(r, final(state).snapshot),
{
}

/// A failure is shown with its message, and keeps the version.
pub proof fn law_a_failure_is_shown(state: &mut UpdateState, message: String, r: UpdateSnapshot)
    requires
        call_ensures(fail, (state, message), r),
    ensures
        final(state).snapshot.phase == UpdatePhase::Error,
        view_opt(final(state).snapshot.latest) == view_opt(old(state).snapshot.latest),
        final(state).snapshot.percent is None,
        final(state).snapshot.message is Some && final(state).snapshot.message->0@ == message@,
        final(state).snapshot.checked_at == old(state).snapshot.checked_at,
        final(state).menu_bucket == 255,
        final(state).busy == old(state).busy,
        final(state).progress_reported == old(state).progress_reported,
        shows_the_same(r, final(state).snapshot),
{
}

/// Progress is told only where it has changed.
pub proof fn law_progress_is_told_where_it_changes(
    state: &mut UpdateState,
    downloaded: u64,
    total: Option<u64>,
    percent: Option<u8>,
    r: Option<u8>,
)
    requires
        call_ensures(advance_progress, (state, downloaded, total), r),
        call_ensures(percent_of, (downloaded, total), percent),
    ensures
        r is Some <==> percent is Some && percent != old(state).snapshot.percent,
        r is Some ==> r == percent && final(state).snapshot.percent == percent,
        r is None ==> shows_the_same(old(state).snapshot, final(state).snapshot),
        final(state).snapshot.phase == old(state).snapshot.phase,
        view_opt(final(state).snapshot.latest) == view_opt(old(state).snapshot.latest),
        view_opt(final(state).snapshot.message) == view_opt(old(state).snapshot.message),
        final(state).busy == old(state).busy,
        keeps_marks(*old(state), *final(state)),
{
}

/// The right to run a task is given out once, until it is given back.
pub proof fn law_the_right_to_run_a_task(
    state: &mut UpdateState,
    r: Option<BusyGuard>,
    later: &mut UpdateState,
    guard: BusyGuard,
)
    requires
        call_ensures(BusyGuard::acquire, (state,), r),
        call_ensures(BusyGuard::release, (guard, later), ()),
    ensures
        r is Some <==> !old(state).busy,
        final(state).busy,
        keeps_marks(*old(state), *final(state)),
        shows_the_same(old(state).snapshot, final(state).snapshot),
        !final(later).busy,
        keeps_marks(*old(later), *final(later)),
        shows_the_same(old(later).snapshot, final(later).snapshot),
{
}

/// The package that was kept is taken out, or its absence said.
pub proof fn law_a_package_is_taken_once<T>(slot: &mut Option<T>, r: Result<T, String>)
    requires
        call_ensures(take_package_for_install::<T>, (slot,), r),
    ensures
        *final(slot) is None,
        r is Ok <==> *old(slot) is Some,
        r matches Ok(package) ==> *old(slot) == Some(package),
        r matches Err(e) ==> e@ == "没有可安装的更新包，请先下载更新包"@,
{
}

/// What is stored of a check, and what is handed out of the store.
pub proof fn law_checks_are_stored(
    cache: &mut Option<CachedCheck>,
    report: &CheckReport,
    now: i64,
    store: &Option<CachedCheck>,
    force: bool,
    at: i64,
    r: Option<CheckReport>,
)
    requires
        call_ensures(remember_report, (cache, report, now), ()),
        call_ensures(stored_report, (store, force, at), r),
    ensures
        report is Found ==> *final(cache) is Some,
        report is Found ==> (*final(cache))->0.checked_at == now,
        report is Found ==> (*final(cache))->0.report@ == report@,
        report is Failed ==> (*final(cache) is Some <==> *old(cache) is Some),
        report is Failed && *old(cache) is Some ==> (*final(cache))->0.checked_at == (*old(cache))->0.checked_at,
        report is Failed && *old(cache) is Some ==> (*final(cache))->0.report@ == (*old(cache))->0.report@,
        r is Some <==> !force && *store is Some && at - (*store)->0.checked_at < 21_600,
        r is Some ==> r->0@ == (*store)->0.report@,
{
}

/// The tag that an answer leads to.
pub proof fn law_the_tag_of_an_answer(
    status: u16,
    headers: &Vec<(String, String)>,
    body: &str,
    r: Result<String, TagError>,
)
    requires
        call_ensures(latest_tag, (status, headers, body), r),
    ensures
        status == 0 || status == 404 ==> r is Err,
        status == 404 ==> r->Err_0.code == 404,
        status == 0 ==> r->Err_0.code == -1,
        status == 0 && is_visible(body@) ==> r->Err_0.message@ == body@,
        status != 0 && status != 404 && (forall|j: int|
            0 <= j < headers@.len() ==> !is_location(#[trigger] headers@[j])) ==> r is Err
            && r->Err_0.code == status,
        status != 0 && status != 404 ==> forall|i: int| #[trigger]
            is_first_location(headers@, i) ==> {
                let location = headers@[i].1@;
                let last = last_piece(location, CharSet::One('/'));
                &&& r is Ok <==> is_visible(last) && contains_text(location, "/releases/tag/"@)
                &&& r matches Ok(tag) ==> tag@ == trimmed(last)
            },
{
    law_which_tag_a_redirection_names(status, headers@, body@);
}

/// A configuration file is used as it reads; one that is missing or no document leaves the source of
/// the application.
pub proof fn law_what_is_loaded(text: Option<&str>, r: LoadedConfig)
    requires
        call_ensures(load_github_config, (text,), r),
    ensures
        text is None || json_document(text->0@) is None ==> {
            &&& r.config.owner@ == "heylumen"@
            &&& r.config.repo@ == "workbuddy-switch-tidy"@
            &&& r.config.proxy@.len() == 0
            &&& r.config.mirrors@.len() == 2
            &&& !r.rewrite
        },
        text is Some && json_document(text->0@) is Some && member(
            json_document(text->0@)->0,
            "token"@,
        ) is Some ==> r.rewrite,
{
    reveal_strlit("heylumen");
    reveal_strlit("changexbc");
    assert("heylumen"@.len() != "changexbc"@.len());
    assert(views(r.config.mirrors@).len() == r.config.mirrors@.len());
}

/// What is stored of a configuration reads as its source, and never holds a token.
pub proof fn law_what_is_saved(cfg: &Value, fields: ConfigFields, plain: GithubConfig, r: String)
    requires
        call_ensures(read_fields, (cfg,), fields),
        call_ensures(clean_config, (&fields,), plain),
        call_ensures(save_github_config, (cfg,), r),
    ensures
        json_document(r@) is Some,
        ({
            let stored = json_document(r@)->0;
            &&& member(stored, "owner"@) == Some(JsonTree::Text(plain.owner@))
            &&& member(stored, "repo"@) == Some(JsonTree::Text(plain.repo@))
            &&& member(stored, "proxy"@) == Some(JsonTree::Text(plain.proxy@))
            &&& member(stored, "token"@) is None
        }),
        is_source_of(fields, plain),
{
    law_what_is_stored_of_a_source(plain);
    law_which_source_is_used(fields, plain);
    reveal_strlit("token");
    reveal_strlit("owner");
    reveal_strlit("repo");
    reveal_strlit("proxy");
    reveal_strlit("mirrors");
    assert("token"@[0] == 't' && "owner"@[0] == 'o' && "repo"@[0] == 'r');
    assert("proxy"@[0] == 'p' && "mirrors"@[0] == 'm');
}

/// What is sent out of a check and of what is shown.
pub proof fn law_what_is_sent_of_updates(
    report: &CheckReport,
    sent: Value,
    shown: &UpdateSnapshot,
    shown_sent: Value,
    release_url: &str,
    refused: Value,
)
    requires
        call_ensures(report_value, (report,), sent),
        call_ensures(snapshot_value, (shown,), shown_sent),
        call_ensures(busy_result, (release_url,), refused),
    ensures
        member(json_tree(sent), "ok"@) == Some(JsonTree::Bool(report is Found)),
        report matches CheckReport::Found(f) ==> member(json_tree(sent), "hasUpdate"@) == Some(
            JsonTree::Bool(f.has_update),
        ) && member(json_tree(sent), "latest"@) == Some(JsonTree::Text(f.latest@)),
        report matches CheckReport::Failed(f) ==> member(json_tree(sent), "message"@) == Some(
            JsonTree::Text(f.message@),
        ),
        member(json_tree(shown_sent), "phase"@) == Some(JsonTree::Text(phase_text(shown.phase))),
        member(json_tree(shown_sent), "latest"@) == Some(text_or_nothing(shown.latest)),
        member(json_tree(shown_sent), "message"@) == Some(text_or_nothing(shown.message)),
        member(json_tree(shown_sent), "checkedAt"@) == Some(integer_or_nothing(shown.checked_at)),
        member(json_tree(refused), "ok"@) == Some(JsonTree::Bool(false)),
        member(json_tree(refused), "releaseUrl"@) == Some(JsonTree::Text(release_url@)),
{
    law_a_check_report_is_sent_whole(*report);
    law_a_snapshot_is_sent_whole(*shown);
    law_a_refused_check_says_so(release_url@);
}

} // verus!
