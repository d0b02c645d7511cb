use rusqlite::types::Value as Cell;
use rusqlite::Connection;
use std::path::PathBuf;
use wb_switch_core::paths::FilePath;
use wb_switch_core::session::copy::{
    copy_session_to_user, copy_sessions_for_switch, copy_value, find_target_session_by_cwd_title,
    plan_copy, report_copy, switch_value, target_has_equivalent_session, CopyPlan, CopyReport,
};
use wb_switch_core::session::list::{list_sessions_for_user, list_value, ListRow};
use wb_switch_core::session::queries::{list_query, title_query, BODY_QUERY, COMPARED_QUERY};
use wb_switch_core::session::rows::{
    insert_edge_sync_mapping, insert_session_copy, SourceTable, SqlValue,
};
use wb_switch_core::session::store_paths::{
    current_user_uid, edge_sync_db_path, projects_dir, workbuddy_db_path,
};
use wb_switch_core::session::stored::{Body, StoredSession};
use wb_switch_core::session::tidy::{
    collapse_sessions_for_user, dedup_sessions_for_user, plan_removals, tidy_value, TidyError,
};
use wb_switch_core::session::titles::{
    body_file_name, body_owner, is_claw_workspace, nonempty_text, normalize_cwd, normalize_jsonl,
    session_display_title, NEUTRAL_ID,
};

fn json(text: &str) -> serde_json::Value {
    serde_json::from_str(text).unwrap()
}

fn on_disk(path: &FilePath) -> String {
    let whole = path.names.iter().fold(PathBuf::from(&path.base), |whole, name| whole.join(name));
    whole.to_string_lossy().to_string()
}

#[test]
fn db_paths_point_to_home() {
    assert!(on_disk(&workbuddy_db_path("/home/me")).ends_with(".workbuddy/workbuddy.db"));
    assert!(on_disk(&edge_sync_db_path("/home/me")).ends_with("edge-sync-mapping-v2.db"));
    assert_eq!(on_disk(&workbuddy_db_path("/home/me/")), "/home/me/.workbuddy/workbuddy.db");
    assert_eq!(workbuddy_db_path("/home/me").base, "/home/me");
    assert_eq!(workbuddy_db_path("/home/me").names, vec![".workbuddy", "workbuddy.db"]);
    assert_eq!(edge_sync_db_path("h").names, vec![".workbuddy", "edge-sync-mapping-v2.db"]);
    assert_eq!(projects_dir("h").names, vec![".workbuddy", "projects"]);
}

fn from_cell(cell: Cell) -> SqlValue {
    match cell {
        Cell::Null => SqlValue::Null,
        Cell::Integer(n) => SqlValue::Integer(n),
        Cell::Real(x) => SqlValue::Real(x.to_bits()),
        Cell::Text(s) => SqlValue::Text(s),
        Cell::Blob(b) => SqlValue::Blob(b),
    }
}

fn to_cell(value: SqlValue) -> Cell {
    match value {
        SqlValue::Null => Cell::Null,
        SqlValue::Integer(n) => Cell::Integer(n),
        SqlValue::Real(bits) => Cell::Real(f64::from_bits(bits)),
        SqlValue::Text(s) => Cell::Text(s),
        SqlValue::Blob(b) => Cell::Blob(b),
    }
}

fn source_table(conn: &Connection, id: &str, uid: &str) -> SourceTable {
    let mut stmt = conn
        .prepare("SELECT * FROM sessions WHERE id = ?1 AND user_id = ?2")
        .unwrap();
    let columns: Vec<String> = stmt.column_names().iter().map(|s| s.to_string()).collect();
    let mut rows = stmt.query([id, uid]).unwrap();
    let row = rows.next().unwrap().map(|row| {
        (0..columns.len())
            .map(|i| from_cell(row.get::<_, Cell>(i).unwrap()))
            .collect::<Vec<SqlValue>>()
    });
    SourceTable { columns, row }
}

fn copy_in(conn: &Connection, new_id: &str, id: &str, uid: &str, target: &str) -> Result<(), String> {
    let table = source_table(conn, id, uid);
    if let Some(insert) = insert_session_copy(Some(&table), new_id, target)? {
        let cells: Vec<Cell> = insert.values.into_iter().map(to_cell).collect();
        conn.execute(&insert.sql, rusqlite::params_from_iter(cells)).unwrap();
    }
    Ok(())
}

#[test]
fn insert_session_copy_duplicates_row_with_target_uid() {
    let conn = Connection::open_in_memory().unwrap();
    conn.execute_batch(
        "CREATE TABLE sessions (
            id TEXT PRIMARY KEY,
            user_id TEXT NOT NULL,
            title TEXT,
            cwd TEXT,
            created_at INTEGER,
            updated_at INTEGER,
            deleted_at INTEGER,
            payload BLOB
        );",
    )
    .unwrap();
    conn.execute(
        "INSERT INTO sessions (id, user_id, title, cwd, created_at, updated_at, deleted_at, payload)
         VALUES ('src-1', 'uid-a', '旧标题', '/ws', 1000, 2000, NULL, x'DEADBEEF')",
        [],
    )
    .unwrap();

    copy_in(&conn, "new-uuid-1", "src-1", "uid-a", "uid-b").unwrap();

    let (id, user_id, title, deleted_at): (String, String, String, Option<i64>) = conn
        .query_row(
            "SELECT id, user_id, title, deleted_at FROM sessions WHERE id = 'new-uuid-1'",
            [],
            |r| Ok((r.get(0)?, r.get(1)?, r.get(2)?, r.get(3)?)),
        )
        .unwrap();
    assert_eq!(id, "new-uuid-1");
    assert_eq!(user_id, "uid-b");
    assert_eq!(title, "旧标题");
    assert_eq!(deleted_at, None);
    let payload: Vec<u8> = conn
        .query_row("SELECT payload FROM sessions WHERE id = 'new-uuid-1'", [], |r| r.get(0))
        .unwrap();
    assert_eq!(payload, vec![0xDE, 0xAD, 0xBE, 0xEF]);

    let src_count: i64 = conn
        .query_row("SELECT COUNT(*) FROM sessions WHERE id = 'src-1'", [], |r| r.get(0))
        .unwrap();
    assert_eq!(src_count, 1);
}

#[test]
fn insert_session_copy_missing_source_is_noop() {
    let conn = Connection::open_in_memory().unwrap();
    conn.execute_batch(
        "CREATE TABLE sessions (id TEXT PRIMARY KEY, user_id TEXT, title TEXT, created_at INTEGER, updated_at INTEGER, deleted_at INTEGER);",
    )
    .unwrap();
    copy_in(&conn, "new-1", "missing", "uid-a", "uid-b").unwrap();
    let count: i64 = conn
        .query_row("SELECT COUNT(*) FROM sessions", [], |r| r.get(0))
        .unwrap();
    assert_eq!(count, 0);
}

#[test]
fn insert_session_copy_missing_db_is_ok() {
    assert!(insert_session_copy(None, "new-1", "b").is_ok());
}

#[test]
fn insert_session_copy_rejects_channels_and_keeps_fractions() {
    let channel = SourceTable {
        columns: vec!["id".to_string(), "cwd".to_string()],
        row: Some(vec![
            SqlValue::Text("a".to_string()),
            SqlValue::Text("/x/CLAW/".to_string()),
        ]),
    };
    let error = insert_session_copy(Some(&channel), "n", "t").unwrap_err();
    assert_eq!(error, "Claw 工作区绑定当前账号渠道，不支持复制");
    let plain = SourceTable {
        columns: vec!["deleted_at".to_string(), "score".to_string(), "cwd".to_string()],
        row: Some(vec![SqlValue::Integer(3), SqlValue::Real(0.5f64.to_bits()), SqlValue::Null]),
    };
    let insert = insert_session_copy(Some(&plain), "n", "t").unwrap().unwrap();
    assert_eq!(
        insert.sql,
        "INSERT OR REPLACE INTO sessions (deleted_at, score, cwd) VALUES (?, ?, ?)"
    );
    assert_eq!(
        insert.values,
        vec![SqlValue::Null, SqlValue::Real(0.5f64.to_bits()), SqlValue::Null]
    );
}

#[test]
fn insert_edge_sync_mapping_registers_channel() {
    let conn = Connection::open_in_memory().unwrap();
    conn.execute_batch(
        "CREATE TABLE edge_sync_mapping (
            session_id TEXT,
            conversation_id TEXT,
            msg_channel TEXT,
            created_at INTEGER
        );",
    )
    .unwrap();
    let entry = insert_edge_sync_mapping(true, "new-1", "uid-b", 77);
    assert!(entry.is_some());
    let entry = entry.unwrap();
    conn.execute(
        "INSERT OR REPLACE INTO edge_sync_mapping (session_id, conversation_id, msg_channel, created_at) VALUES (?1, ?2, ?3, ?4)",
        (entry.session_id, entry.conversation_id, entry.msg_channel, entry.created_at),
    )
    .unwrap();
    let (sid, cid, channel, at): (String, String, String, i64) = conn
        .query_row(
            "SELECT session_id, conversation_id, msg_channel, created_at FROM edge_sync_mapping",
            [],
            |r| Ok((r.get(0)?, r.get(1)?, r.get(2)?, r.get(3)?)),
        )
        .unwrap();
    assert_eq!(sid, "new-1");
    assert_eq!(cid, "new-1");
    assert_eq!(channel, "convmsg:uid-b");
    assert_eq!(at, 77);
}

#[test]
fn insert_edge_sync_mapping_missing_table_false() {
    assert!(!insert_edge_sync_mapping(false, "new-1", "uid-b", 0).is_some());
}

#[test]
fn session_display_title_prefers_custom_title() {
    assert_eq!(
        session_display_title(Some("自动标题".into()), Some("美团每日自动领券".into())),
        "美团每日自动领券"
    );
    assert_eq!(
        session_display_title(None, Some("美团每日自动领券".into())),
        "美团每日自动领券"
    );
    assert_eq!(
        session_display_title(Some("汉字详情页".into()), None),
        "汉字详情页"
    );
    assert_eq!(session_display_title(None, None), "(无标题)");
    assert_eq!(
        session_display_title(Some("  ".into()), Some("".into())),
        "(无标题)"
    );
    assert_eq!(nonempty_text(Some(" x ".into())).as_deref(), Some("x"));
    assert_eq!(nonempty_text(Some(" ".into())), None);
}

#[test]
fn claw_workspace_detected_by_folder_name() {
    assert!(is_claw_workspace("/Users/apple/WorkBuddy/Claw"));
    assert!(is_claw_workspace("/Users/apple/WorkBuddy/claw/"));
    assert!(is_claw_workspace(r"C:\Users\me\WorkBuddy\Claw"));
    assert!(!is_claw_workspace("/Users/apple/WorkBuddy/ClawBot"));
    assert!(!is_claw_workspace(
        "/Users/apple/Documents/AI-PROJECT/LetterTotTown"
    ));
}

#[test]
fn normalize_cwd_trims_trailing_separators() {
    assert_eq!(normalize_cwd("/ws/"), "/ws");
    assert_eq!(normalize_cwd("C:\\ws\\"), "C:\\ws");
    assert_eq!(normalize_cwd("  /ws  "), "/ws");
    assert_eq!(normalize_cwd("/ws"), "/ws");
}

#[test]
fn normalize_jsonl_neutralizes_session_id_for_comparison() {
    let src = "{\"sessionId\":\"abc-123\",\"text\":\"hello\"}";
    let tgt = "{\"sessionId\":\"def-456\",\"text\":\"hello\"}";
    assert_eq!(
        normalize_jsonl(src, "abc-123"),
        normalize_jsonl(tgt, "def-456")
    );
    assert!(!normalize_jsonl(src, "abc-123").contains("abc-123"));
    assert_eq!(normalize_jsonl("aXa", "a"), "aXa".replace("a", NEUTRAL_ID));
    assert_eq!(normalize_jsonl("ab", ""), "ab".replace("", NEUTRAL_ID));
    assert_eq!(normalize_jsonl("aaaa", "aa"), "aaaa".replace("aa", NEUTRAL_ID));
}

#[test]
fn the_signed_in_account_is_read_from_its_file() {
    assert_eq!(current_user_uid(None), None);
    assert_eq!(current_user_uid(Some(&json("{}"))), None);
    assert_eq!(current_user_uid(Some(&json(r#"{"account":{"uid":5}}"#))), None);
    assert_eq!(
        current_user_uid(Some(&json(r#"{"account":{"uid":"u1"}}"#))).as_deref(),
        Some("u1")
    );
}

fn stored(id: &str, cwd: &str, title: &str, updated_at: i64, body: Body) -> StoredSession {
    StoredSession {
        id: Some(id.to_string()),
        cwd: Some(cwd.to_string()),
        title: Some(title.to_string()),
        custom_title: None,
        updated_at: Some(updated_at),
        body,
    }
}

fn text(body: &str) -> Body {
    Body::Text(body.to_string())
}

#[test]
fn equivalent_conversations_agree_but_for_their_ids() {
    let source = stored("id-a", "/ws", "t", 1, text("x id-a y"));
    let there = |body: Body| vec![stored("id-b", "/ws/", "other", 9, body)];
    assert!(target_has_equivalent_session(&there(text("x id-b y")), &source));
    assert!(!target_has_equivalent_session(&there(text("x id-b z")), &source));
    assert!(!target_has_equivalent_session(&there(Body::Absent), &source));
    assert!(!target_has_equivalent_session(&there(Body::Unreadable), &source));
    let elsewhere = vec![stored("id-b", "/ws2", "t", 9, text("x id-b y"))];
    assert!(!target_has_equivalent_session(&elsewhere, &source));
    let bare = stored("id-a", "/ws", "t", 1, Body::Absent);
    let namesake = vec![stored("id-b", "/ws", " t ", 9, Body::Absent)];
    assert!(target_has_equivalent_session(&namesake, &bare));
    let hidden = vec![stored("id-b", "/ws", "t", 9, Body::Unreadable)];
    assert!(!target_has_equivalent_session(&hidden, &bare));
    let locked = stored("id-a", "/ws", "t", 1, Body::Unreadable);
    assert!(target_has_equivalent_session(&namesake, &locked));
    let full = vec![stored("id-b", "/ws", "t", 9, text(""))];
    assert!(!target_has_equivalent_session(&full, &bare));
}

#[test]
fn namesakes_are_found_in_their_directory() {
    let list = vec![
        stored("1", "/a/claw", "t", 1, Body::Absent),
        stored("2", "/b", "t", 2, Body::Absent),
        stored("3", "/a", "t", 3, Body::Absent),
        stored("4", "/a/", "t", 4, Body::Absent),
    ];
    assert_eq!(find_target_session_by_cwd_title(&list, "/a", "t"), Some(("3".to_string(), 3)));
    assert_eq!(find_target_session_by_cwd_title(&list, "/a/claw", "t"), None);
    assert_eq!(find_target_session_by_cwd_title(&list, "/c", "t"), None);
}

#[test]
fn copying_decides_between_all_its_outcomes() {
    let none: Vec<StoredSession> = Vec::new();
    let source = stored("src", "/ws", "t", 50, text("[src]"));
    let plan = plan_copy(Some(&source), &none, &none, "new".to_string()).unwrap();
    match plan {
        CopyPlan::Write { target_id, body, is_new } => {
            assert_eq!(target_id, "new");
            assert_eq!(body.as_deref(), Some("[new]"));
            assert!(is_new);
        }
        CopyPlan::Skip { .. } => panic!("nothing is there yet"),
    }
    let older = vec![stored("old", "/ws", "t", 49, text("[old] x"))];
    match plan_copy(Some(&source), &older, &older, "new".to_string()).unwrap() {
        CopyPlan::Write { target_id, body, is_new } => {
            assert_eq!(target_id, "old");
            assert_eq!(body.as_deref(), Some("[old]"));
            assert!(!is_new);
        }
        CopyPlan::Skip { .. } => panic!("an older namesake is brought up to date"),
    }
    let newer = vec![stored("late", "/ws", "t", 50, text("[late] x"))];
    match plan_copy(Some(&source), &newer, &newer, "new".to_string()).unwrap() {
        CopyPlan::Skip { target_id, reason } => {
            assert_eq!(target_id, "late");
            assert_eq!(reason, "目标账号已有同名且更新的会话，跳过以避免覆盖");
        }
        CopyPlan::Write { .. } => panic!("a namesake as new is kept"),
    }
    let same = vec![stored("copy", "/ws", "u", 1, text("[copy]"))];
    match plan_copy(Some(&source), &same, &same, "new".to_string()).unwrap() {
        CopyPlan::Skip { target_id, reason } => {
            assert_eq!(target_id, "");
            assert_eq!(reason, "目标账号已存在等价会话，跳过复制以避免重复");
        }
        CopyPlan::Write { .. } => panic!("the conversation is there already"),
    }
    let channel = stored("src", "/ws/Claw", "t", 50, text("[src]"));
    assert_eq!(
        plan_copy(Some(&channel), &none, &none, "new".to_string()).unwrap_err(),
        "Claw 工作区绑定当前账号渠道，不支持复制"
    );
    assert_eq!(
        plan_copy(None, &none, &none, "new".to_string()).unwrap_err(),
        "源会话不存在，无法复制"
    );
}

#[test]
fn new_conversations_get_hyphenated_ids() {
    let none: Vec<StoredSession> = Vec::new();
    let source = stored("src", "/ws", "t", 50, Body::Absent);
    let mut seen = Vec::new();
    for _ in 0..3 {
        match copy_session_to_user(Some(&source), &none, &none).unwrap() {
            CopyPlan::Write { target_id, body, is_new } => {
                assert_eq!(body, None);
                assert!(is_new);
                assert_eq!(target_id.len(), 36);
                assert_eq!(target_id.matches('-').count(), 4);
                assert_eq!(&target_id[14..15], "4");
                assert!(!seen.contains(&target_id));
                seen.push(target_id);
            }
            CopyPlan::Skip { .. } => panic!("nothing is there yet"),
        }
    }
}

#[test]
fn copy_reports_say_what_was_done() {
    let skip = CopyPlan::Skip { target_id: "t".to_string(), reason: "r" };
    let value = copy_value(&report_copy("s", skip, true, true, "b".to_string()));
    assert_eq!(
        value,
        json(r#"{"id":"s","newId":"t","skipped":true,"reason":"r","jsonlCopied":false,"mappingWritten":false,"backup":""}"#)
    );
    let update = CopyPlan::Write { target_id: "t".to_string(), body: None, is_new: false };
    let value = copy_value(&report_copy("s", update, true, true, "b".to_string()));
    assert_eq!(
        value,
        json(r#"{"id":"s","newId":"t","skipped":false,"updated":true,"reason":"目标账号已有同名会话，已同步为源端最新版本","jsonlCopied":true,"mappingWritten":false,"backup":"b"}"#)
    );
    let create = CopyPlan::Write { target_id: "t".to_string(), body: None, is_new: true };
    let value = copy_value(&report_copy("s", create, false, true, "b".to_string()));
    assert_eq!(
        value,
        json(r#"{"id":"s","newId":"t","skipped":false,"jsonlCopied":false,"mappingWritten":true,"backup":"b"}"#)
    );
}

#[test]
fn a_change_of_accounts_collects_reports_and_errors() {
    let target = json(r#"{"uid":" b "}"#);
    assert!(copy_sessions_for_switch(&target, None).is_none());
    assert!(copy_sessions_for_switch(&target, Some("b".to_string())).is_none());
    assert!(copy_sessions_for_switch(&json(r#"{"uid":"  "}"#), Some("a".to_string())).is_none());
    assert!(copy_sessions_for_switch(&json("{}"), Some("a".to_string())).is_none());
    let mut run = copy_sessions_for_switch(&target, Some("a".to_string())).unwrap();
    assert_eq!(
        switch_value(&run),
        json(r#"{"sourceUid":"a","targetUid":"b","copied":[]}"#)
    );
    run.add_result(
        "1",
        Ok(CopyReport::Skipped { id: "1".to_string(), new_id: String::new(), reason: "r" }),
    );
    run.add_result("2", Err("e".to_string()));
    let value = switch_value(&run);
    assert_eq!(value["copied"].as_array().unwrap().len(), 1);
    assert_eq!(value["copied"][0]["id"], "1");
    assert_eq!(value["errors"], json(r#"[{"id":"2","error":"e"}]"#));
}

fn key(a: &str, b: &str) -> Option<(String, String)> {
    Some((a.to_string(), b.to_string()))
}

#[test]
fn one_of_each_group_stays() {
    let keys = vec![
        key("d", "x"),
        key("d", "y"),
        key("d", "x"),
        None,
        key("d", "y"),
        key("d", "x"),
        None,
        key("e", "x"),
    ];
    let times = vec![5, 7, 9, 1, 7, 9, 1, 0];
    // Of the first group the third stays, and the sixth goes before the first; of the second group
    // the first of two as new stays.
    assert_eq!(plan_removals(&keys, &times), vec![5, 0, 4]);
}

#[test]
fn tidying_stops_at_the_first_refusal() {
    let rows = vec![
        stored("a", "/w", "t", 3, text("a")),
        stored("b", "/w", "t", 2, text("b")),
        stored("c", "/w", "t", 1, text("c")),
        stored("d", "/w", "t", 9, Body::Absent),
        stored("e", "/w", "t", 8, Body::Unreadable),
        stored("f", "/w/claw", "t", 8, text("f")),
    ];
    let mut run = dedup_sessions_for_user(Ok(&rows)).unwrap();
    assert_eq!(run.next().unwrap().id, "b");
    assert!(run.on_hidden());
    assert_eq!(run.next().unwrap().id, "c");
    run.on_refused("locked");
    assert!(run.next().is_none());
    let report = run.report();
    assert_eq!(report.removed_ids, vec!["b"]);
    assert_eq!(
        tidy_value(&report),
        json(r#"{"ok":false,"reason":"写入 workbuddy.db 失败（请关闭 WorkBuddy 后重试）：locked","removed":1}"#)
    );
    let mut fold = collapse_sessions_for_user(Ok(&rows)).unwrap();
    let mut hidden = Vec::new();
    while let Some(removal) = fold.next() {
        hidden.push(removal.id.clone());
        assert!(!fold.on_hidden());
    }
    assert_eq!(hidden, vec!["e", "a", "b", "c"]);
    assert_eq!(
        tidy_value(&fold.report()),
        json(r#"{"ok":true,"removed":4,"removedIds":["e","a","b","c"]}"#)
    );
}

#[test]
fn tidying_reports_why_nothing_could_be_read() {
    let reason = |e: TidyError| {
        let value = tidy_value(&dedup_sessions_for_user(Err(e)).unwrap_err());
        assert_eq!(value["ok"], false);
        assert_eq!(value["removed"], 0);
        value["reason"].as_str().unwrap().to_string()
    };
    assert_eq!(reason(TidyError::NoDatabase), "workbuddy.db 不存在");
    assert_eq!(reason(TidyError::CannotOpen), "无法打开 workbuddy.db");
    assert_eq!(reason(TidyError::NoTable), "sessions 表不存在");
    assert_eq!(reason(TidyError::QueryFailed), "查询会话失败");
    assert!(collapse_sessions_for_user(Err(TidyError::NoTable)).is_err());
}

#[test]
fn conversations_are_listed_without_channels() {
    let rows = vec![
        ListRow {
            session: stored("a", "/w", " name ", 3, Body::Absent),
            is_playground: Some(1),
            has_history: true,
        },
        ListRow {
            session: stored("b", "/w/CLAW", "t", 3, Body::Absent),
            is_playground: None,
            has_history: false,
        },
        ListRow {
            session: StoredSession {
                id: None,
                cwd: None,
                title: None,
                custom_title: None,
                updated_at: None,
                body: Body::Absent,
            },
            is_playground: Some(0),
            has_history: false,
        },
    ];
    let list = list_sessions_for_user(Some(&rows));
    assert_eq!(
        list_value(&list),
        json(
            r#"[{"id":"a","title":"name","cwd":"/w","updatedAt":3,"hasHistory":true,"isPlayground":true},
                {"id":"","title":"(无标题)","cwd":"","updatedAt":0,"hasHistory":false,"isPlayground":false}]"#
        )
    );
    assert_eq!(list_sessions_for_user(None).len(), 0);
}

#[test]
fn statements_suit_the_columns_that_are_there() {
    let conn = Connection::open_in_memory().unwrap();
    conn.execute_batch(
        "CREATE TABLE sessions (id TEXT, user_id TEXT, title TEXT, cwd TEXT, updated_at INTEGER, deleted_at INTEGER);",
    )
    .unwrap();
    assert!(conn.prepare(list_query(false, false)).is_ok());
    assert!(conn.prepare(title_query(false)).is_ok());
    assert!(conn.prepare(BODY_QUERY).is_ok());
    assert!(conn.prepare(COMPARED_QUERY).is_err());
    assert!(conn.prepare(list_query(true, false)).is_err());
    conn.execute_batch("ALTER TABLE sessions ADD COLUMN custom_title TEXT;").unwrap();
    assert!(conn.prepare(list_query(true, false)).is_ok());
    assert!(conn.prepare(title_query(true)).is_ok());
    assert!(conn.prepare(COMPARED_QUERY).is_ok());
    assert!(conn.prepare(list_query(false, true)).is_err());
    conn.execute_batch("ALTER TABLE sessions ADD COLUMN is_playground INTEGER;").unwrap();
    assert!(conn.prepare(list_query(false, true)).is_ok());
    assert!(conn.prepare(list_query(true, true)).is_ok());
}

#[test]
fn bodies_are_told_by_the_names_of_their_files() {
    assert_eq!(body_file_name("abc-123"), "abc-123.jsonl");
    assert_eq!(body_owner("abc-123.jsonl").as_deref(), Some("abc-123"));
    assert_eq!(body_owner("a.b.jsonl").as_deref(), Some("a.b"));
    assert_eq!(body_owner("会话.jsonl").as_deref(), Some("会话"));
    assert_eq!(body_owner("abc-123.json"), None);
    assert_eq!(body_owner("abc-123.jsonl.bak"), None);
    assert_eq!(body_owner("abc-123.JSONL"), None);
    assert_eq!(body_owner("abc-123"), None);
    assert_eq!(body_owner(".jsonl"), None);
    assert_eq!(body_owner(""), None);
}

#[test]
fn tidying_again_hides_nothing() {
    let rows = vec![
        stored("1", "/ws", "t", 1, text("[1]")),
        stored("2", "/ws", "t", 2, text("[2]")),
        stored("3", "/ws", "t", 2, text("[3]")),
        stored("4", "/ws", "u", 9, Body::Absent),
    ];
    let run = dedup_sessions_for_user(Ok(&rows)).unwrap();
    let hidden: Vec<&str> = run.removals.iter().map(|r| r.id.as_str()).collect();
    assert_eq!(hidden, vec!["3", "1"]);
    let left: Vec<StoredSession> = rows
        .into_iter()
        .filter(|s| !matches!(s.id.as_deref(), Some("1") | Some("3")))
        .collect();
    assert!(dedup_sessions_for_user(Ok(&left)).unwrap().next().is_none());
    assert!(collapse_sessions_for_user(Ok(&left)).unwrap().next().is_none());
}
