use wb_switch_core::clock::CivilTime;
use wb_switch_core::limits::collect::{
    collect_business_log, collect_sdk_log, folder_date_ms, folder_is_scanned, log_kind, LogKind,
    RawEvent,
};
use wb_switch_core::limits::dedup::dedup;
use wb_switch_core::limits::lines::{
    extract_session_id_after_marker, extract_session_id_from_parens, looks_like_session_id,
    parse_business_line_time, parse_reset_at, reset_millis, QUOTA_MARKER,
};
use wb_switch_core::limits::report::{
    get_limits, limits_value, range_cutoff, range_days, session_account, session_model, Scan,
    Transcript,
};

const NOW: i64 = 1_789_000_000_000;

fn now_ms() -> i64 {
    NOW
}

fn utc(text: &str) -> i64 {
    chrono::DateTime::parse_from_rfc3339(text)
        .unwrap()
        .timestamp_millis()
}

fn event(occurred_at: i64, reset_at: i64, session_id: Option<&str>) -> RawEvent {
    RawEvent {
        occurred_at,
        reset_at,
        session_id: session_id.map(str::to_string),
    }
}

fn shape(events: &[RawEvent]) -> Vec<(i64, i64, Option<&str>)> {
    events
        .iter()
        .map(|e| (e.occurred_at, e.reset_at, e.session_id.as_deref()))
        .collect()
}

fn lines(text: &str) -> Vec<Option<String>> {
    text.lines().map(|line| Some(line.to_string())).collect()
}

#[test]
fn parse_reset_at_accepts_zero_padded_local_time() {
    let line = "[2026/9/11 13:00:10.804] [Info] error: 429 您的使用量已超出频率限制，将在 2026-09-11 17:18:36 UTC+8 重置，您也可以切换其他模型继续使用。 (req/sess-1234abcd)";
    let idx = line.find(QUOTA_MARKER).unwrap();
    let ts = parse_reset_at(line, idx).expect("reset timestamp");
    let expected = chrono::DateTime::parse_from_rfc3339("2026-09-11T09:18:36Z")
        .unwrap()
        .timestamp_millis();
    assert_eq!(ts, expected);
}

#[test]
fn parse_business_line_time_handles_single_digit_date() {
    let ts = parse_business_line_time("[2026/9/11 13:00:10.804]").unwrap();
    let expected = chrono::DateTime::parse_from_rfc3339("2026-09-11T05:00:10.804Z")
        .unwrap()
        .timestamp_millis();
    assert_eq!(ts, expected);
}

#[test]
fn extract_session_id_from_warning_line() {
    let line = "[2026/9/11 13:00:10.804] [Warning] [ACP Agent] refusal classified: sessionId=ab12cd34-1234-5678-9abc-def012345678, rpcCode=-32003, httpStatus=429, bizCode=6004, category=quota";
    let sid = extract_session_id_after_marker(line, "sessionId=").unwrap();
    assert_eq!(sid, "ab12cd34-1234-5678-9abc-def012345678");
}

#[test]
fn extract_session_id_from_parens_rejects_placeholder() {
    let line = "... 重置 ... (reqId/sessionId)";
    assert!(extract_session_id_from_parens(line).is_none());
    let real = "... 重置 ... (req-1/sess-12345678abcdef)";
    assert_eq!(
        extract_session_id_from_parens(real).unwrap(),
        "sess-12345678abcdef"
    );
}

#[test]
fn dedup_merges_business_and_sdk_duplicates_for_same_event() {
    let reset = now_ms() + 3600_000;
    let raw = vec![
        RawEvent { occurred_at: now_ms() - 10_000, reset_at: reset, session_id: Some("sess-aaaabbbbcccc".into()) },
        RawEvent { occurred_at: now_ms() - 8_000, reset_at: reset, session_id: Some("sess-aaaabbbbcccc".into()) },
    ];
    assert_eq!(dedup(raw).len(), 1);
}

#[test]
fn dedup_second_step_collapses_no_session_records_by_reset_time_window() {
    let reset = now_ms() + 3600_000;
    let base = now_ms();
    let raw = vec![
        RawEvent { occurred_at: base, reset_at: reset, session_id: None },
        RawEvent { occurred_at: base + 5_000, reset_at: reset, session_id: None },
        RawEvent { occurred_at: base + 20_000, reset_at: reset, session_id: None },
    ];
    let merged = dedup(raw);
    assert_eq!(merged.len(), 2);
}

#[test]
fn dedup_keeps_distinct_reset_times_separate() {
    let now = now_ms();
    let raw = vec![
        RawEvent { occurred_at: now, reset_at: now + 3600_000, session_id: Some("sess-one".into()) },
        RawEvent { occurred_at: now, reset_at: now + 7200_000, session_id: Some("sess-one".into()) },
    ];
    assert_eq!(dedup(raw).len(), 2);
}

#[test]
fn dedup_does_not_merge_distinct_sessions_sharing_reset_time() {
    let base = now_ms();
    let reset = base + 3600_000;
    let raw = vec![
        RawEvent { occurred_at: base, reset_at: reset, session_id: Some("sess-aaaaaaaa1111".into()) },
        RawEvent { occurred_at: base + 5_000, reset_at: reset, session_id: Some("sess-bbbbbbbb2222".into()) },
    ];
    let merged = dedup(raw);
    assert_eq!(merged.len(), 2);
    let raw2 = vec![
        RawEvent { occurred_at: base, reset_at: reset, session_id: Some("sess-aaaaaaaa1111".into()) },
        RawEvent { occurred_at: base + 5_000, reset_at: reset, session_id: None },
    ];
    let merged2 = dedup(raw2);
    assert_eq!(merged2.len(), 1);
    assert_eq!(merged2[0].session_id.as_deref(), Some("sess-aaaaaaaa1111"));
}

const BUSINESS: &str = "[2026/9/11 13:00:10.804] [Warning] [ACP Agent] refusal classified: sessionId=ab12cd34-1234-5678-9abc-def012345678, rpcCode=-32003, httpStatus=429, bizCode=6004, category=quota\n[2026/9/11 13:00:10.900] [Info] [Interruption] Catch block entered, error: 429 您的使用量已超出频率限制，将在 2026-09-11 17:18:36 UTC+8 重置，您也可以切换其他模型继续使用。 (req/ab12cd34-1234-5678-9abc-def012345678)\n";

const KIT: &str = "runtime.applyStopReason {\"errorMessageMetaPreview\":\"429 您的使用量已超出频率限制，将在 2026-09-11 17:18:36 UTC+8 重置\"}\n";

#[test]
fn get_limits_scans_fixture_logs_and_dedups() {
    let mut scan = Scan::new();
    scan.add_file(collect_business_log(Some(&lines(BUSINESS))));
    scan.add_file(collect_sdk_log(
        Some("ab12cd34-1234-5678-9abc-def012345678"),
        Some(NOW),
        Some(&lines(KIT)),
    ));
    let report = get_limits(Some(30), NOW, scan, &Vec::new(), &Vec::new());
    let value = limits_value(&report);

    assert_eq!(value["filesScanned"], 2);
    let events = value["events"].as_array().unwrap();
    assert_eq!(events.len(), 1);
    assert_eq!(events[0]["sessionId"], "ab12cd34-1234-5678-9abc-def012345678");
    assert_eq!(events[0]["resetAt"].as_i64().unwrap() > 0, true);
    assert_eq!(events[0]["accountUid"].is_null(), true);
    assert_eq!(events[0]["model"].is_null(), true);
}

#[test]
fn reset_times_need_the_whole_time_behind_the_marker() {
    let good = format!("{QUOTA_MARKER}2024-02-29 23:59:59 UTC+8");
    assert_eq!(parse_reset_at(&good, 0), Some(utc("2024-02-29T15:59:59Z")));
    assert_eq!(parse_reset_at(&format!("{QUOTA_MARKER}2023-02-29 00:00:00"), 0), None);
    assert_eq!(parse_reset_at(&format!("{QUOTA_MARKER}2024-02-29 23:59"), 0), None);
    assert_eq!(parse_reset_at(&format!("{QUOTA_MARKER}二〇二四-02-29 23:59:59"), 0), None);
    assert_eq!(parse_reset_at(&good, 1), None);
    assert_eq!(parse_reset_at(&good, usize::MAX), None);
    let leap = format!("{QUOTA_MARKER}2016-12-31 23:59:60");
    assert_eq!(parse_reset_at(&leap, 0), Some(utc("2016-12-31T15:59:59Z") + 1000));
}

#[test]
fn line_times_follow_the_calendar() {
    assert_eq!(
        parse_business_line_time("[2024/2/29 0:0:0] x"),
        Some(utc("2024-02-28T16:00:00Z"))
    );
    assert_eq!(
        parse_business_line_time("[1900/3/1 08:00:00.5]"),
        Some(utc("1900-03-01T00:00:00Z"))
    );
    assert_eq!(
        parse_business_line_time("[2026/09/11\t13:00:10.8049 more]"),
        Some(utc("2026-09-11T05:00:10.804Z"))
    );
    assert_eq!(
        parse_business_line_time("[-1/12/31 08:00:00]"),
        Some(chrono::NaiveDate::from_ymd_opt(-1, 12, 31).unwrap().and_hms_opt(0, 0, 0).unwrap().and_utc().timestamp_millis())
    );
    assert_eq!(parse_business_line_time("[2023/2/29 00:00:00]"), None);
    assert_eq!(parse_business_line_time("[2026/13/1 00:00:00]"), None);
    assert_eq!(parse_business_line_time("[2026/9/11 24:00:00]"), None);
    assert_eq!(parse_business_line_time("[2026/9/11]"), None);
    assert_eq!(parse_business_line_time("2026/9/11 13:00:10]"), None);
    assert_eq!(parse_business_line_time("[]"), None);
    assert_eq!(parse_business_line_time(""), None);
    assert_eq!(parse_business_line_time("[999999/1/1 00:00:00]"), None);
    assert_eq!(parse_business_line_time("[-262143/1/1 07:59:59]"), None);
    assert!(parse_business_line_time("[-262143/1/1 08:00:00]").is_some());
    assert!(parse_business_line_time("[262142/12/31 23:59:59.999]").is_some());
}

#[test]
fn session_ids_are_told_from_placeholders() {
    assert_eq!(extract_session_id_after_marker("sessionId=", "sessionId="), None);
    assert_eq!(extract_session_id_after_marker("no marker", "sessionId="), None);
    assert_eq!(
        extract_session_id_after_marker("a sessionId=12-ab) x", "sessionId=").as_deref(),
        Some("12-ab")
    );
    assert_eq!(extract_session_id_after_marker("sessionId=sessionId", "sessionId="), None);
    assert_eq!(extract_session_id_from_parens("(a) b ( c / d )").as_deref(), Some("d"));
    assert_eq!(extract_session_id_from_parens("(REQID)"), None);
    assert_eq!(extract_session_id_from_parens("(  )"), None);
    assert_eq!(extract_session_id_from_parens(")("), None);
    assert_eq!(extract_session_id_from_parens("nothing"), None);
    assert_eq!(extract_session_id_from_parens("(x/)"), None);
    assert!(looks_like_session_id("ab12cd34"));
    assert!(looks_like_session_id("AB12-cd34-"));
    assert!(!looks_like_session_id("ab12cd3"));
    assert!(!looks_like_session_id("sess-12345678"));
}

#[test]
fn an_event_without_a_session_gets_that_of_the_nearest_warning() {
    let limit = "您的使用量已超出频率限制，将在 2026-09-11 17:18:36 UTC+8 重置";
    let text = format!(
        "[2026/9/11 13:00:00] sessionId=aaaaaaaa\n\
         [2026/9/11 13:00:12] sessionId=bbbbbbbb\n\
         [2026/9/11 13:00:06] {limit}\n\
         [2026/9/11 13:00:08] {limit}\n\
         [2026/9/11 13:00:28] {limit}\n\
         [2026/9/11 13:00:07] {limit} (req/cccccccc)\n\
         {limit}\n\
         {QUOTA_MARKER}soon\n"
    );
    let mut read = lines(&text);
    read.push(None);
    let found = collect_business_log(Some(&read));
    let reset = utc("2026-09-11T09:18:36Z");
    let at = |second: &str| utc(&format!("2026-09-11T05:00:{second}Z"));
    assert_eq!(
        shape(&found.events),
        vec![
            (at("06"), reset, Some("aaaaaaaa")),
            (at("08"), reset, Some("bbbbbbbb")),
            (at("28"), reset, None),
            (at("07"), reset, Some("cccccccc")),
            (reset, reset, None),
        ]
    );
    assert_eq!(found.errors, 2);
    let missing = collect_business_log(None);
    assert_eq!(missing.events.len(), 0);
    assert_eq!(missing.errors, 1);
}

#[test]
fn a_kit_log_is_named_after_its_session() {
    let reset = utc("2026-09-11T09:18:36Z");
    let named = collect_sdk_log(Some("ab12cd34-1234"), Some(5), Some(&lines(KIT)));
    assert_eq!(shape(&named.events), vec![(5, reset, Some("ab12cd34-1234"))]);
    let other = collect_sdk_log(Some("main"), None, Some(&lines(KIT)));
    assert_eq!(shape(&other.events), vec![(reset, reset, None)]);
    let broken = vec![None, Some(format!("{QUOTA_MARKER}x")), Some("y".to_string())];
    assert_eq!(collect_sdk_log(Some("main"), None, Some(&broken)).errors, 2);
    assert_eq!(collect_sdk_log(None, None, None).errors, 0);
    assert_eq!(collect_sdk_log(Some("main"), None, None).errors, 1);
}

#[test]
fn logs_are_told_by_their_paths() {
    let parts = |path: &str| -> Vec<Option<String>> {
        path.split('/').map(|p| Some(p.to_string())).collect()
    };
    assert_eq!(log_kind(Some("log"), &parts("logs/2026-09-11/w__h.log")), LogKind::Business);
    assert_eq!(
        log_kind(Some("log"), &parts("logs/2026-09-11/sdk/conversations/x.log")),
        LogKind::Kit
    );
    assert_eq!(log_kind(Some("txt"), &parts("logs/sdk/x.txt")), LogKind::Other);
    assert_eq!(log_kind(None, &parts("logs/sdk/x")), LogKind::Other);
    assert_eq!(log_kind(Some("log"), &vec![None]), LogKind::Business);
}

#[test]
fn folders_are_named_after_days() {
    let day = utc("2026-09-10T16:00:00Z");
    assert_eq!(folder_date_ms("2026-09-11"), Some(day));
    assert_eq!(folder_date_ms("2026_9_11/"), Some(day));
    assert_eq!(folder_date_ms("2026/09-11//"), Some(day));
    assert_eq!(folder_date_ms("2026-09"), None);
    assert_eq!(folder_date_ms("2026-09-11-1"), None);
    assert_eq!(folder_date_ms("2026-02-30"), None);
    assert_eq!(folder_date_ms("sdk"), None);
    assert!(folder_is_scanned("2026-09-11", None));
    assert!(folder_is_scanned("2026-09-11", Some(day)));
    assert!(!folder_is_scanned("2026-09-11", Some(day + 1)));
    assert!(!folder_is_scanned("other", None));
}

#[test]
fn dedup_keeps_the_earliest_record_of_a_session() {
    let merged = dedup(vec![
        event(50_000, 900, Some("a")),
        event(20_000, 900, Some("a")),
        event(90_000, 900, Some("a")),
        event(10_000, 700, None),
    ]);
    assert_eq!(shape(&merged), vec![(10_000, 700, None), (20_000, 900, Some("a"))]);
}

#[test]
fn dedup_joins_only_close_records_and_settles() {
    let raw = vec![
        event(0, 900, None),
        event(15_000, 900, Some("a")),
        event(15_001, 900, Some("b")),
        event(30_000, 900, None),
        event(30_001, 900, Some("c")),
        event(0, 901, None),
    ];
    let merged = dedup(raw);
    let expected = vec![
        (0, 900, Some("a")),
        (15_001, 900, Some("b")),
        (30_001, 900, Some("c")),
        (0, 901, None),
    ];
    assert_eq!(shape(&merged), expected);
    let again = dedup(merged);
    assert_eq!(shape(&again), expected);
}

#[test]
fn dedup_accounts_for_every_record() {
    let raw = vec![
        event(40_000, 900, None),
        event(10_000, 900, Some("a")),
        event(26_000, 900, None),
        event(5_000, 900, Some("b")),
        event(70_000, 900, Some("a")),
        event(60_000, 901, None),
    ];
    let merged = dedup(raw.clone());
    assert_eq!(
        shape(&merged),
        vec![
            (5_000, 900, Some("b")),
            (10_000, 900, Some("a")),
            (26_000, 900, None),
            (60_000, 901, None),
        ]
    );
    for e in &raw {
        assert!(merged.iter().any(|f| {
            f.reset_at == e.reset_at
                && f.occurred_at <= e.occurred_at
                && match &e.session_id {
                    Some(_) => f.session_id == e.session_id,
                    None => e.occurred_at - f.occurred_at <= 15_000,
                }
        }));
    }
    for f in &merged {
        assert!(raw.iter().any(|e| e.reset_at == f.reset_at && e.occurred_at == f.occurred_at));
    }
}

#[test]
fn dedup_copes_with_the_ends_of_time() {
    let merged = dedup(vec![
        event(i64::MAX, 1, None),
        event(i64::MIN, 1, None),
    ]);
    assert_eq!(shape(&merged), vec![(i64::MIN, 1, None), (i64::MAX, 1, None)]);
}

#[test]
fn the_ledger_names_accounts_and_models() {
    let scan = Scan {
        events: vec![
            event(NOW - 50, NOW + 1, Some("aaaaaaaa")),
            event(NOW - 90, NOW, Some("bbbbbbbb")),
            event(NOW - 20, NOW + 9, None),
        ],
        files: 4,
        errors: 2,
    };
    let accounts = vec![
        (Some("aaaaaaaa".to_string()), Some("old".to_string())),
        (Some("aaaaaaaa".to_string()), Some("uid-1".to_string())),
        (Some("aaaaaaaa".to_string()), Some("".to_string())),
        (Some("aaaaaaaa".to_string()), None),
        (None, Some("uid-2".to_string())),
    ];
    let transcripts = vec![
        Transcript {
            session: "aaaaaaaa".to_string(),
            lines: Some(vec![
                Some(r#"{"providerData":{"model":"first"}}"#.to_string()),
                Some(r#"{"model":" second "}"#.to_string()),
                Some("not json".to_string()),
                None,
                Some(r#"{"providerData":{"model":7},"model":"hidden"}"#.to_string()),
                Some(r#"{"model":"  "}"#.to_string()),
            ]),
        },
        Transcript { session: "bbbbbbbb".to_string(), lines: None },
    ];
    let report = get_limits(Some(7), NOW, scan, &accounts, &transcripts);
    assert_eq!(report.range_days, Some(7));
    assert_eq!(report.files_scanned, 4);
    assert_eq!(report.parse_errors, 2);
    assert_eq!(report.active_count, 2);
    assert_eq!(report.coverage_start_at, Some(NOW - 90));
    assert_eq!(report.coverage_end_at, Some(NOW - 20));
    assert_eq!(report.events.len(), 3);
    assert_eq!(report.events[0].session_id.as_deref(), Some("bbbbbbbb"));
    assert_eq!(report.events[0].active, false);
    assert_eq!(report.events[0].account_uid, None);
    assert_eq!(report.events[0].model, None);
    assert_eq!(report.events[1].account_uid.as_deref(), Some("uid-1"));
    assert_eq!(report.events[1].model.as_deref(), Some("second"));
    assert_eq!(report.events[1].active, true);
    assert_eq!(report.events[2].account_uid, None);
    let value = limits_value(&report);
    assert_eq!(value["generatedAt"].as_i64(), Some(NOW));
    assert_eq!(value["rangeDays"].as_i64(), Some(7));
    assert_eq!(value["activeCount"].as_u64(), Some(2));
    assert_eq!(value["events"][1]["model"], "second");
    assert_eq!(value["events"][2]["sessionId"].is_null(), true);
    assert_eq!(value["coverageEndAt"].as_i64(), Some(NOW - 20));
    assert_eq!(session_account(&accounts, ""), None);
    assert_eq!(session_model(None), None);
}

#[test]
fn an_empty_ledger_covers_nothing() {
    let report = get_limits(Some(0), NOW, Scan::new(), &Vec::new(), &Vec::new());
    assert_eq!(report.range_days, None);
    assert_eq!(report.active_count, 0);
    assert_eq!(report.coverage_start_at, None);
    assert_eq!(report.coverage_end_at, None);
    assert_eq!(limits_value(&report)["rangeDays"].is_null(), true);
}

#[test]
fn ranges_are_counted_in_days() {
    assert_eq!(range_days(Some(-1)), None);
    assert_eq!(range_days(None), None);
    assert_eq!(range_days(Some(12)), Some(12));
    assert_eq!(range_cutoff(Some(2), NOW), Some(NOW - 172_800_000));
    assert_eq!(range_cutoff(Some(0), NOW), None);
    assert_eq!(range_cutoff(None, NOW), None);
}

#[test]
fn civil_times_are_those_of_the_zone_of_the_logs() {
    let time = |month: u32, day: u32, second: u32, nano: u32| CivilTime {
        year: 2026,
        month,
        day,
        hour: 17,
        minute: 18,
        second,
        nano,
    };
    let expected = utc("2026-09-11T09:18:36Z");
    assert_eq!(reset_millis(time(9, 11, 36, 0)), Some(expected));
    assert_eq!(reset_millis(time(9, 11, 36, 7_000_000)), Some(expected + 7));
    assert_eq!(reset_millis(time(9, 31, 36, 0)), None);
    assert_eq!(reset_millis(time(2, 29, 36, 0)), None);
    assert_eq!(reset_millis(time(9, 11, 60, 0)), None);
}
