use wb_switch_core::update_service::{
    add_chunk, advance_progress, apply_check_result, begin_check, begin_download, busy_result, check,
    download_error, download_tooltip, fail, finish_check, finish_download, finish_restart,
    mark_ready_to_restart, on_download_chunk, percent_of, restart, should_rebuild_menu, snapshot,
    snapshot_value, start_download, store_package, take_package_for_install, BusyGuard, DownloadEnd,
    DownloadStage, InstallEnd, UpdatePhase, UpdateSnapshot, UpdateState,
};

fn json(text: &str) -> serde_json::Value {
    serde_json::from_str(text).unwrap()
}

const NOW: i64 = 1_800_000_000;

#[test]
fn phases_flow_idle_available_downloading_ready_to_restart() {
    let mut state = UpdateState::new();
    assert_eq!(snapshot(&state).phase, UpdatePhase::Idle);

    assert_eq!(begin_check(&mut state).phase, UpdatePhase::Checking);

    let result = json(
        r#"{"ok": true, "latest": "9.9.9", "hasUpdate": true, "checkedAt": 1700000000}"#,
    );
    let available = apply_check_result(&mut state, &result, NOW);
    assert_eq!(available.phase, UpdatePhase::Available);
    assert_eq!(available.latest.as_deref(), Some("9.9.9"));
    assert_eq!(available.checked_at, Some(1_700_000_000));

    let downloading = begin_download(&mut state, "9.9.9");
    assert_eq!(downloading.phase, UpdatePhase::Downloading);
    assert_eq!(downloading.latest.as_deref(), Some("9.9.9"));
    assert_eq!(downloading.percent, None);

    assert_eq!(advance_progress(&mut state, 30, Some(100)), Some(30));
    assert_eq!(snapshot(&state).percent, Some(30));

    let ready = mark_ready_to_restart(&mut state, "9.9.9");
    assert_eq!(ready.phase, UpdatePhase::ReadyToRestart);
    assert_eq!(ready.percent, Some(100));
    assert_eq!(ready.latest.as_deref(), Some("9.9.9"));
}

#[test]
fn check_without_update_lands_on_up_to_date() {
    let mut state = UpdateState::new();
    let result = json(r#"{"ok": true, "latest": "0.1.0", "hasUpdate": false}"#);
    let snapshot = apply_check_result(&mut state, &result, NOW);
    assert_eq!(snapshot.phase, UpdatePhase::UpToDate);
    assert_eq!(snapshot.latest, None);
    assert!(snapshot.checked_at.is_some());
}

fn failed_check() -> serde_json::Value {
    json(r#"{"ok": false, "error": "网络请求失败", "message": "网络请求失败（code=-1）"}"#)
}

#[test]
fn failed_check_lands_on_error_with_message() {
    let mut state = UpdateState::new();
    let snapshot = apply_check_result(&mut state, &failed_check(), NOW);
    assert_eq!(snapshot.phase, UpdatePhase::Error);
    assert_eq!(snapshot.message.as_deref(), Some("网络请求失败（code=-1）"));
    assert_eq!(snapshot.latest, None);
}

#[test]
fn failed_recheck_keeps_available_target() {
    let mut state = UpdateState::new();
    let result = json(r#"{"ok": true, "latest": "9.9.9", "hasUpdate": true}"#);
    apply_check_result(&mut state, &result, NOW);
    assert_eq!(begin_check(&mut state).phase, UpdatePhase::Checking);
    assert_eq!(snapshot(&state).latest.as_deref(), Some("9.9.9"));
    let snapshot = apply_check_result(&mut state, &failed_check(), NOW);
    assert_eq!(snapshot.phase, UpdatePhase::Available);
    assert_eq!(snapshot.latest.as_deref(), Some("9.9.9"));
    assert_eq!(snapshot.message, None);
}

#[test]
fn failed_check_from_idle_still_errors() {
    let mut state = UpdateState::new();
    begin_check(&mut state);
    let snapshot = apply_check_result(&mut state, &failed_check(), NOW);
    assert_eq!(snapshot.phase, UpdatePhase::Error);
    assert_eq!(snapshot.latest, None);
    assert_eq!(snapshot.message.as_deref(), Some("网络请求失败（code=-1）"));
}

#[test]
fn check_does_not_downgrade_downloading_or_ready_to_restart() {
    let mut state = UpdateState::new();
    let newer = json(r#"{"ok": true, "latest": "9.9.10", "hasUpdate": true}"#);
    begin_download(&mut state, "9.9.9");
    assert_eq!(begin_check(&mut state).phase, UpdatePhase::Downloading);
    assert_eq!(
        apply_check_result(&mut state, &newer, NOW).phase,
        UpdatePhase::Downloading
    );

    mark_ready_to_restart(&mut state, "9.9.9");
    assert_eq!(begin_check(&mut state).phase, UpdatePhase::ReadyToRestart);
    assert_eq!(
        apply_check_result(&mut state, &newer, NOW).phase,
        UpdatePhase::ReadyToRestart
    );
    assert_eq!(snapshot(&state).phase, UpdatePhase::ReadyToRestart);
}

#[test]
fn failed_download_keeps_target_version_for_retry() {
    let mut state = UpdateState::new();
    let result = json(r#"{"ok": true, "latest": "9.9.9", "hasUpdate": true}"#);
    apply_check_result(&mut state, &result, NOW);
    begin_download(&mut state, "9.9.9");
    let snapshot = fail(&mut state, "下载更新包失败：连接超时".to_string());
    assert_eq!(snapshot.phase, UpdatePhase::Error);
    assert_eq!(snapshot.latest.as_deref(), Some("9.9.9"));
    assert_eq!(snapshot.percent, None);
}

#[test]
fn busy_guard_rejects_second_entry_until_released() {
    let mut state = UpdateState::new();
    let first = BusyGuard::acquire(&mut state);
    assert!(first.is_some(), "首次进入应拿到互斥");
    assert!(BusyGuard::acquire(&mut state).is_none(), "并发进入必须被拒");
    first.unwrap().release(&mut state);
    let second = BusyGuard::acquire(&mut state);
    assert!(second.is_some(), "释放后应重新可进入");
    second.unwrap().release(&mut state);
}

#[test]
fn restart_without_package_returns_error_instead_of_panicking() {
    let mut slot: Option<Vec<u8>> = None;
    let error = match take_package_for_install(&mut slot) {
        Ok(_) => panic!("无包时不应返回可安装的更新包"),
        Err(error) => error,
    };
    assert!(error.contains("没有可安装的更新包"), "{error}");
}

#[test]
fn percent_conversion_clamps_and_handles_unknown_total() {
    assert_eq!(percent_of(0, Some(100)), Some(0));
    assert_eq!(percent_of(1, Some(3)), Some(33));
    assert_eq!(percent_of(99, Some(100)), Some(99));
    assert_eq!(percent_of(100, Some(100)), Some(100));
    assert_eq!(percent_of(150, Some(100)), Some(100), "超出总量按 100 截断");
    assert_eq!(percent_of(10, None), None, "无 Content-Length 时不报百分比");
    assert_eq!(percent_of(10, Some(0)), None, "总量为 0 不除零");
}

#[test]
fn progress_snapshot_written_only_on_integer_change() {
    let mut state = UpdateState::new();
    begin_download(&mut state, "9.9.9");
    assert_eq!(advance_progress(&mut state, 1, Some(1000)), Some(0));
    assert_eq!(advance_progress(&mut state, 2, Some(1000)), None, "同一整数百分比不重复写");
    assert_eq!(advance_progress(&mut state, 10, Some(1000)), Some(1));
    assert_eq!(snapshot(&state).percent, Some(1));
    assert_eq!(advance_progress(&mut state, 10, None), None, "总量未知不写百分比");
}

#[test]
fn menu_rebuilds_once_per_ten_percent_bucket() {
    let mut state = UpdateState::new();
    state.menu_bucket = 0;
    assert!(!should_rebuild_menu(&mut state, 0));
    assert!(!should_rebuild_menu(&mut state, 3));
    assert!(!should_rebuild_menu(&mut state, 9));
    assert!(should_rebuild_menu(&mut state, 10));
    assert!(!should_rebuild_menu(&mut state, 11));
    assert!(should_rebuild_menu(&mut state, 100), "跨档必须重建");
    assert!(!should_rebuild_menu(&mut state, 100), "同档不重复重建");
}

#[test]
fn snapshot_serializes_camel_case_contract() {
    let value = snapshot_value(&UpdateSnapshot::idle());
    assert_eq!(value["phase"], json(r#""idle""#));
    assert_eq!(value["latest"], json("null"));
    assert_eq!(value["percent"], json("null"));
    assert_eq!(value["message"], json("null"));
    assert_eq!(value["checkedAt"], json("null"));

    let mut state = UpdateState::new();
    let value = snapshot_value(&mark_ready_to_restart(&mut state, "1.2.3"));
    assert_eq!(value["phase"], json(r#""readyToRestart""#));
    assert_eq!(value["latest"], json(r#""1.2.3""#));
    assert_eq!(value["percent"], json("100"));
}

#[test]
fn download_tooltip_reports_percent_or_unknown() {
    assert_eq!(download_tooltip(Some(42)), "正在下载更新 42%");
    assert_eq!(download_tooltip(None), "正在下载更新…");
}

#[test]
fn progress_is_exact_for_any_size() {
    assert_eq!(percent_of(u64::MAX, Some(u64::MAX)), Some(100));
    assert_eq!(percent_of(u64::MAX, Some(u64::MAX - 1)), Some(100));
    assert_eq!(percent_of(u64::MAX - 1, Some(u64::MAX)), Some(99));
    assert_eq!(percent_of(u64::MAX / 2, Some(u64::MAX)), Some(49));
    assert_eq!(percent_of(u64::MAX / 100, Some(u64::MAX / 100)), Some(100));
    assert_eq!(percent_of(u64::MAX, Some(1)), Some(100));
    assert_eq!(percent_of(2, Some(3)), Some(66));
    assert_eq!(add_chunk(5, 6), 11);
    assert_eq!(add_chunk(u64::MAX - 1, 5), u64::MAX);
}

#[test]
fn progress_counts_up_to_a_hundred() {
    let shown: Vec<u8> = (0..=8).map(|d| percent_of(d, Some(7)).unwrap()).collect();
    assert_eq!(shown, vec![0, 14, 28, 42, 57, 71, 85, 100, 100]);
}

#[test]
fn a_check_shows_its_course_and_lets_no_other_in() {
    let mut state = UpdateState::new();
    let (guard, shown) = check(&mut state).unwrap();
    assert_eq!(shown.phase, UpdatePhase::Checking);
    assert!(check(&mut state).is_none());
    assert!(start_download(&mut state, false).is_err());
    let value = busy_result("https://page");
    assert_eq!(
        value,
        json(r#"{"ok":false,"error":"更新任务正在进行中，请稍候","message":"更新任务正在进行中，请稍候","releaseUrl":"https://page"}"#)
    );
    let result = json(r#"{"ok":true,"latest":" 2.0 ","hasUpdate":true,"checkedAt":5}"#);
    let shown = finish_check(&mut state, guard, &result, NOW);
    assert_eq!(shown.phase, UpdatePhase::Available);
    assert_eq!(shown.latest.as_deref(), Some("2.0"));
    assert_eq!(shown.checked_at, Some(5));
    assert!(!state.busy);
}

#[test]
fn a_check_without_a_version_or_a_message_is_read_as_far_as_it_goes() {
    let mut state = UpdateState::new();
    let blank = json(r#"{"ok":true,"latest":"  ","hasUpdate":true}"#);
    let shown = apply_check_result(&mut state, &blank, NOW);
    assert_eq!(shown.phase, UpdatePhase::UpToDate);
    assert_eq!(shown.checked_at, Some(NOW));
    let shown = apply_check_result(&mut state, &json(r#"{"ok":"yes","error":"why"}"#), NOW);
    assert_eq!(shown.phase, UpdatePhase::Error);
    assert_eq!(shown.message.as_deref(), Some("why"));
    assert_eq!(shown.checked_at, Some(NOW));
    let shown = apply_check_result(&mut state, &json("[]"), NOW);
    assert_eq!(shown.message, None);
}

#[test]
fn a_download_ends_in_one_of_three_ways() {
    let mut state = UpdateState::new();
    assert_eq!(start_download(&mut state, true).unwrap_err(), "演示模式已跳过更新下载");
    let guard = start_download(&mut state, false).unwrap();
    assert_eq!(start_download(&mut state, false).unwrap_err(), "更新任务正在进行中，请稍候");
    begin_download(&mut state, "2.0");
    let (shown, notice) =
        finish_download(&mut state, guard, DownloadEnd::Package("2.0".to_string()), NOW);
    assert_eq!(shown.phase, UpdatePhase::ReadyToRestart);
    let notice = notice.unwrap();
    assert_eq!(notice.title, "更新已就绪");
    assert_eq!(notice.body, "v2.0 已下载完成，点「重启以完成升级」后生效");
    assert!(!state.busy);

    let mut state = UpdateState::new();
    let guard = start_download(&mut state, false).unwrap();
    let (shown, notice) = finish_download(&mut state, guard, DownloadEnd::NothingNew, NOW);
    assert_eq!(shown.phase, UpdatePhase::UpToDate);
    assert_eq!(shown.checked_at, Some(NOW));
    assert!(notice.is_none());

    let mut state = UpdateState::new();
    let guard = start_download(&mut state, false).unwrap();
    begin_download(&mut state, "2.0");
    let message = download_error(DownloadStage::Fetch, "连接超时");
    let (shown, notice) = finish_download(&mut state, guard, DownloadEnd::Failed(message), NOW);
    assert_eq!(shown.phase, UpdatePhase::Error);
    assert_eq!(shown.latest.as_deref(), Some("2.0"));
    let notice = notice.unwrap();
    assert_eq!(notice.title, "更新下载失败");
    assert_eq!(notice.body, "下载更新包失败：连接超时");
    assert_eq!(download_error(DownloadStage::Proxy, "e"), "更新代理地址无效：e");
    assert_eq!(download_error(DownloadStage::Setup, "e"), "初始化更新器失败：e");
    assert_eq!(download_error(DownloadStage::Check, "e"), "检查更新包失败：e");
}

#[test]
fn chunks_move_the_tray_the_snapshot_and_the_menu() {
    let mut state = UpdateState::new();
    begin_download(&mut state, "2.0");
    let first = on_download_chunk(&mut state, 1, Some(1000));
    assert_eq!(first.tooltip, "正在下载更新 0%");
    assert_eq!(first.changed.unwrap().percent, Some(0));
    assert!(first.first_report);
    assert!(!first.rebuild_menu);
    let same = on_download_chunk(&mut state, 2, Some(1000));
    assert!(same.changed.is_none());
    let tenth = on_download_chunk(&mut state, 100, Some(1000));
    assert_eq!(tenth.tooltip, "正在下载更新 10%");
    assert!(!tenth.first_report);
    assert!(tenth.rebuild_menu);
    let unknown = on_download_chunk(&mut state, 200, None);
    assert_eq!(unknown.tooltip, "正在下载更新…");
    assert!(unknown.changed.is_none());
}

#[test]
fn an_installation_needs_a_package_and_nothing_else_running() {
    let mut state = UpdateState::new();
    let mut slot: Option<u8> = None;
    assert_eq!(restart(&mut state, &mut slot, true).unwrap_err(), "演示模式已跳过更新安装");
    assert_eq!(
        restart(&mut state, &mut slot, false).unwrap_err(),
        "没有可安装的更新包，请先下载更新包"
    );
    store_package(&mut slot, 7);
    let other = BusyGuard::acquire(&mut state).unwrap();
    assert_eq!(
        restart(&mut state, &mut slot, false).unwrap_err(),
        "更新任务正在进行中，请稍候"
    );
    assert_eq!(slot, Some(7));
    other.release(&mut state);
    let (guard, package) = restart(&mut state, &mut slot, false).unwrap();
    assert_eq!(package, 7);
    assert_eq!(slot, None);
    assert!(finish_restart(&mut state, guard, "2.0", InstallEnd::Relaunched).is_none());
    assert!(!state.busy);

    let guard = BusyGuard::acquire(&mut state).unwrap();
    let end = InstallEnd::NotRelaunched("e".to_string());
    let (shown, notice) = finish_restart(&mut state, guard, "2.0", end).unwrap();
    assert_eq!(notice.title, "更新已安装");
    assert_eq!(notice.body, "v2.0 已安装，请手动重启应用完成升级：e");
    assert_eq!(shown.message.as_deref(), Some(notice.body.as_str()));
    let guard = BusyGuard::acquire(&mut state).unwrap();
    let (shown, notice) =
        finish_restart(&mut state, guard, "2.0", InstallEnd::Failed("e".to_string())).unwrap();
    assert_eq!(notice.title, "更新安装失败");
    assert_eq!(notice.body, "安装 v2.0 失败：e");
    assert_eq!(shown.phase, UpdatePhase::Error);
}
