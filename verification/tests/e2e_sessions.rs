//! Whole lives of conversations: nothing that is copied, tidied up or listed is lost.
//!
//! The databases live in memory, and the files of bodies in a map from paths to contents.

use rusqlite::types::Value as Cell;
use rusqlite::Connection;
use serde_json::Value;
use std::collections::{BTreeMap, HashSet};
use wb_switch_core::session::copy::{copy_session_to_user, copy_value, report_copy, CopyPlan};
use wb_switch_core::session::list::{list_sessions_for_user, list_value, ListRow};
use wb_switch_core::session::queries::{list_query, title_query};
use wb_switch_core::session::rows::{
    insert_edge_sync_mapping, insert_session_copy, SourceTable, SqlValue,
};
use wb_switch_core::session::stored::{Body, StoredSession};
use wb_switch_core::session::tidy::{
    collapse_sessions_for_user, dedup_sessions_for_user, tidy_value, TidyError, TidyReport, TidyRun,
};

struct Home {
    db: Option<Connection>,
    edge: Option<Connection>,
    /// Bodies by their paths below the directory of projects.
    files: BTreeMap<String, String>,
}

fn setup() -> Home {
    let db = Connection::open_in_memory().unwrap();
    db.execute_batch(
        "CREATE TABLE sessions (
            id TEXT PRIMARY KEY, user_id TEXT NOT NULL, title TEXT,
            custom_title TEXT, cwd TEXT, created_at INTEGER,
            updated_at INTEGER, deleted_at INTEGER, is_playground INTEGER DEFAULT 0
        );",
    )
    .unwrap();
    let edge = Connection::open_in_memory().unwrap();
    edge.execute_batch(
        "CREATE TABLE edge_sync_mapping (
            session_id TEXT, conversation_id TEXT, msg_channel TEXT, created_at INTEGER
        );",
    )
    .unwrap();
    Home { db: Some(db), edge: Some(edge), files: BTreeMap::new() }
}

fn workspace(cwd: &str) -> String {
    let cwd_t = cwd.trim_end_matches(['/', '\\']);
    if cwd_t.is_empty() {
        "playground".to_string()
    } else {
        cwd_t.rsplit('/').next().unwrap().to_string()
    }
}

fn body_text(cid: &str, body: &str) -> String {
    format!("{{\"sessionId\":\"{cid}\",\"messages\":[{{\"role\":\"user\",\"content\":\"{body}\"}}]}}")
}

fn seed_session(
    home: &mut Home,
    uid: &str,
    cid: &str,
    title: &str,
    cwd: &str,
    body: Option<&str>,
    custom_title: Option<&str>,
    is_pg: i64,
    ua: i64,
) {
    home.db
        .as_ref()
        .unwrap()
        .execute(
            "INSERT INTO sessions (id,user_id,title,custom_title,cwd,created_at,updated_at,deleted_at,is_playground) \
             VALUES (?1,?2,?3,?4,?5,?6,?7,NULL,?8)",
            (cid, uid, title, custom_title, cwd, ua, ua, is_pg),
        )
        .unwrap();
    if let Some(body) = body {
        home.files
            .insert(format!("{}/{cid}.jsonl", workspace(cwd)), body_text(cid, body));
    }
}

fn seed_duplicate(home: &mut Home, uid: &str, cid: &str, cwd: &str, body: &str, ua: i64) {
    seed_session(home, uid, cid, "需求评审", cwd, Some(body), None, 0, ua);
    home.edge
        .as_ref()
        .unwrap()
        .execute(
            "INSERT OR REPLACE INTO edge_sync_mapping (session_id,conversation_id,msg_channel,created_at) \
             VALUES (?1,?1,?2,0)",
            (cid, format!("convmsg:{uid}")),
        )
        .unwrap();
}

fn find_jsonl(home: &Home, cid: &str) -> Option<String> {
    let name = format!("{cid}.jsonl");
    home.files
        .keys()
        .find(|path| path.rsplit('/').next() == Some(name.as_str()))
        .cloned()
}

fn body_of(home: &Home, cid: &str) -> Body {
    match find_jsonl(home, cid) {
        Some(path) => Body::Text(home.files[&path].clone()),
        None => Body::Absent,
    }
}

fn stored_rows(home: &Home, uid: &str) -> Vec<StoredSession> {
    let conn = home.db.as_ref().unwrap();
    let mut stmt = conn.prepare(title_query(true)).unwrap();
    let rows = stmt
        .query_map([uid], |r| {
            Ok(StoredSession {
                id: r.get(0)?,
                cwd: r.get(1)?,
                title: r.get(2)?,
                custom_title: r.get(3)?,
                updated_at: r.get(4)?,
                body: Body::Absent,
            })
        })
        .unwrap();
    rows.flatten()
        .map(|mut row| {
            row.body = body_of(home, row.id.as_deref().unwrap_or(""));
            row
        })
        .collect()
}

fn list_for(home: &Home, uid: &str) -> Value {
    let conn = home.db.as_ref().unwrap();
    let mut stmt = conn.prepare(list_query(true, true)).unwrap();
    let rows: Vec<ListRow> = stmt
        .query_map([uid], |r| {
            Ok(ListRow {
                session: StoredSession {
                    id: r.get(0)?,
                    cwd: r.get(1)?,
                    title: r.get(2)?,
                    custom_title: r.get(3)?,
                    updated_at: r.get(4)?,
                    body: Body::Absent,
                },
                is_playground: r.get(5)?,
                has_history: false,
            })
        })
        .unwrap()
        .flatten()
        .map(|mut row| {
            row.has_history = find_jsonl(home, row.session.id.as_deref().unwrap_or("")).is_some();
            row
        })
        .collect();
    list_value(&list_sessions_for_user(Some(&rows)))
}

fn from_cell(cell: Cell) -> SqlValue {
    match cell {
        Cell::Null => SqlValue::Null,
        Cell::Integer(n) => SqlValue::Integer(n),
        Cell::Real(x) => SqlValue::Real(x.to_bits()),
        Cell::Text(s) => SqlValue::Text(s),
        Cell::Blob(b) => SqlValue::Blob(b),
    }
}

fn to_cell(value: SqlValue) -> Cell {
    match value {
        SqlValue::Null => Cell::Null,
        SqlValue::Integer(n) => Cell::Integer(n),
        SqlValue::Real(bits) => Cell::Real(f64::from_bits(bits)),
        SqlValue::Text(s) => Cell::Text(s),
        SqlValue::Blob(b) => Cell::Blob(b),
    }
}

fn copy_to(home: &mut Home, cid: &str, source_uid: &str, target_uid: &str) -> Result<Value, String> {
    let source = home
        .db
        .as_ref()
        .unwrap()
        .query_row(
            "SELECT cwd, title, custom_title, updated_at FROM sessions WHERE id = ?1 AND user_id = ?2",
            [cid, source_uid],
            |r| {
                Ok(StoredSession {
                    id: Some(cid.to_string()),
                    cwd: r.get(0)?,
                    title: r.get(1)?,
                    custom_title: r.get(2)?,
                    updated_at: r.get(3)?,
                    body: body_of(home, cid),
                })
            },
        )
        .ok();
    let targets = stored_rows(home, target_uid);
    let plan = copy_session_to_user(source.as_ref(), &targets, &targets)?;
    let mut jsonl_copied = false;
    let mut mapping_written = false;
    if let CopyPlan::Write { target_id, body, is_new } = &plan {
        if let Some(body) = body {
            let beside = find_jsonl(home, cid).unwrap();
            let path = find_jsonl(home, target_id).unwrap_or_else(|| {
                let directory = beside.rsplit_once('/').unwrap().0;
                format!("{directory}/{target_id}.jsonl")
            });
            home.files.insert(path, body.clone());
            jsonl_copied = true;
        }
        let conn = home.db.as_ref().unwrap();
        let table = {
            let mut stmt = conn
                .prepare("SELECT * FROM sessions WHERE id = ?1 AND user_id = ?2")
                .unwrap();
            let columns: Vec<String> = stmt.column_names().iter().map(|s| s.to_string()).collect();
            let mut rows = stmt.query([cid, source_uid]).unwrap();
            let row = rows.next().unwrap().map(|row| {
                (0..columns.len())
                    .map(|i| from_cell(row.get::<_, Cell>(i).unwrap()))
                    .collect::<Vec<SqlValue>>()
            });
            SourceTable { columns, row }
        };
        if let Some(insert) = insert_session_copy(Some(&table), target_id, target_uid)? {
            let cells: Vec<Cell> = insert.values.into_iter().map(to_cell).collect();
            conn.execute(&insert.sql, rusqlite::params_from_iter(cells)).unwrap();
        }
        if *is_new {
            let entry = insert_edge_sync_mapping(true, target_id, target_uid, 0).unwrap();
            home.edge
                .as_ref()
                .unwrap()
                .execute(
                    "INSERT OR REPLACE INTO edge_sync_mapping (session_id,conversation_id,msg_channel,created_at) VALUES (?1,?2,?3,?4)",
                    (entry.session_id, entry.conversation_id, entry.msg_channel, entry.created_at),
                )
                .unwrap();
            mapping_written = true;
        }
    }
    Ok(copy_value(&report_copy(cid, plan, jsonl_copied, mapping_written, String::new())))
}

fn carry_out(home: &mut Home, uid: &str, begun: Result<TidyRun, TidyReport>) -> Value {
    let mut run = match begun {
        Ok(run) => run,
        Err(report) => return tidy_value(&report),
    };
    while let Some(removal) = run.next() {
        let id = removal.id.clone();
        home.db
            .as_ref()
            .unwrap()
            .execute(
                "UPDATE sessions SET deleted_at = ?1 WHERE id = ?2 AND user_id = ?3",
                (1i64, &id, uid),
            )
            .unwrap();
        if run.on_hidden() {
            let path = find_jsonl(home, &id).unwrap();
            home.files.remove(&path);
        }
    }
    let report = run.report();
    for id in &report.removed_ids {
        home.edge
            .as_ref()
            .unwrap()
            .execute(
                "DELETE FROM edge_sync_mapping WHERE session_id = ?1 OR conversation_id = ?1",
                [id],
            )
            .unwrap();
    }
    tidy_value(&report)
}

fn dedup_for(home: &mut Home, uid: &str) -> Value {
    if home.db.is_none() {
        return carry_out(home, uid, dedup_sessions_for_user(Err(TidyError::NoDatabase)));
    }
    let rows = stored_rows(home, uid);
    let begun = dedup_sessions_for_user(Ok(&rows));
    carry_out(home, uid, begun)
}

fn collapse_for(home: &mut Home, uid: &str) -> Value {
    let rows = stored_rows(home, uid);
    let begun = collapse_sessions_for_user(Ok(&rows));
    carry_out(home, uid, begun)
}

// Pure functions for the assertions, written independently of the library.
fn n_cwd(cwd: &str) -> String {
    cwd.trim().trim_end_matches(['/', '\\']).to_string()
}

const NEUTRAL: &str = "\u{0}WB_SWITCH_NEUTRAL_ID\u{0}";

fn n_jsonl(text: &str, cid: &str) -> String {
    text.replace(cid, NEUTRAL)
}

fn is_claw(cwd: &str) -> bool {
    let s = cwd.trim().trim_end_matches(['/', '\\']);
    let parts: Vec<&str> = s.split(['/', '\\']).filter(|p| !p.is_empty()).collect();
    let last = parts.last().copied().unwrap_or("");
    last.eq_ignore_ascii_case("claw")
}

fn active(home: &Home, uid: &str) -> Vec<(String, String)> {
    let conn = home.db.as_ref().unwrap();
    let mut stmt = conn
        .prepare("SELECT id, cwd FROM sessions WHERE user_id=?1 AND deleted_at IS NULL")
        .unwrap();
    let rows = stmt
        .query_map([uid], |r| Ok((r.get::<_, String>(0)?, r.get::<_, String>(1)?)))
        .unwrap();
    rows.map(|row| row.unwrap()).collect()
}

fn content_fps(home: &Home, uids: &[&str]) -> HashSet<(String, String)> {
    let mut set = HashSet::new();
    for uid in uids {
        for (cid, cwd) in active(home, uid) {
            if is_claw(&cwd) {
                continue;
            }
            if let Some(path) = find_jsonl(home, &cid) {
                set.insert((n_cwd(&cwd), n_jsonl(&home.files[&path], &cid)));
            }
        }
    }
    set
}

fn active_count(home: &Home, uids: &[&str]) -> usize {
    uids.iter()
        .map(|uid| active(home, uid).iter().filter(|(_, cwd)| !is_claw(cwd)).count())
        .sum()
}

fn edge_leftover(home: &Home, cids: &[&str]) -> i64 {
    let conn = home.edge.as_ref().unwrap();
    let mut stmt = conn
        .prepare("SELECT COUNT(*) FROM edge_sync_mapping WHERE session_id = ?1")
        .unwrap();
    let mut total = 0i64;
    for c in cids {
        total += stmt.query_row([c], |r| r.get::<_, i64>(0)).unwrap();
    }
    total
}

fn ids(listed: &Value) -> Vec<String> {
    listed
        .as_array()
        .unwrap()
        .iter()
        .map(|v| v["id"].as_str().unwrap().to_string())
        .collect()
}

#[test]
fn e2e_e1_creation_persistence_recovery() {
    let mut home = setup();
    let uid = "uid-A";
    seed_session(&mut home, uid, "a1", "需求评审", "/ws/项目甲/", Some("甲的需求内容"), None, 0, 1000);
    seed_session(&mut home, uid, "a2", "会议纪要", "/ws/项目乙", Some("乙的会议内容"), None, 0, 1000);
    seed_session(&mut home, uid, "a3", "快速问答", "", Some("问答内容"), None, 1, 1000);
    seed_session(&mut home, uid, "a4", "空任务", "", None, None, 1, 1000);
    seed_session(&mut home, uid, "acl", "claw绑定", "/ws/Claw", Some("claw内容"), None, 0, 1000);

    let listed = list_for(&home, uid);
    assert_eq!(listed.as_array().map(|a| a.len()).unwrap_or(0), 4, "列举应排除 claw，返回 4 条");

    let cfp = content_fps(&home, &[uid]);
    assert_eq!(cfp.len(), 3, "内容指纹应含 3 份正文");

    for (cid, body) in [("a1", "甲的需求内容"), ("a2", "乙的会议内容"), ("a3", "问答内容")] {
        let ok = find_jsonl(&home, cid)
            .map(|p| home.files[&p].contains(body))
            .unwrap_or(false);
        assert!(ok, "恢复 {cid} 的 jsonl 内容应完整");
    }
    assert!(find_jsonl(&home, "a4").is_none(), "空任务 a4 不应有 jsonl");
    assert!(find_jsonl(&home, "acl").is_some(), "claw 会话 acl 始终存活");
}

#[test]
fn e2e_e2_copy_first() {
    let mut home = setup();
    let (ua, ub) = ("uid-A", "uid-B");
    seed_session(&mut home, ua, "a1", "需求评审", "/ws/项目甲/", Some("甲的需求内容"), None, 0, 1000);
    let before_a = active_count(&home, &[ua]);
    let res = copy_to(&mut home, "a1", ua, ub).unwrap();
    assert!(!res["skipped"].as_bool().unwrap() && res["newId"].as_str().unwrap().len() > 0);
    assert_eq!(active_count(&home, &[ua]), before_a, "源账号行数不变");
    assert_eq!(active_count(&home, &[ub]), 1, "目标新增 1 条");
    let new_id = res["newId"].as_str().unwrap().to_string();
    let p = find_jsonl(&home, &new_id);
    assert!(p.is_some(), "目标新会话 jsonl 已生成");
    let src_p = find_jsonl(&home, "a1").unwrap();
    let eq = n_jsonl(&home.files[&p.unwrap()], &new_id) == n_jsonl(&home.files[&src_p], "a1");
    assert!(eq, "复制正文与源等价(去标识后)");
    assert!(edge_leftover(&home, &[&new_id]) >= 1, "新会话应已注册云端映射");
}

#[test]
fn e2e_e3_copy_duplicate_skip() {
    let mut home = setup();
    let (ua, ub) = ("uid-A", "uid-B");
    seed_session(&mut home, ua, "a1", "需求评审", "/ws/项目甲/", Some("甲的需求内容"), None, 0, 1000);
    copy_to(&mut home, "a1", ua, ub).unwrap();
    let before_b = active_count(&home, &[ub]);
    let res = copy_to(&mut home, "a1", ua, ub).unwrap();
    assert!(res["skipped"].as_bool().unwrap(), "重复复制应跳过");
    assert_eq!(res["newId"].as_str().unwrap(), "", "重复复制 newId 应为空串");
    assert_eq!(active_count(&home, &[ub]), before_b, "目标行数不再增加");
}

#[test]
fn e2e_e4_snowball_no_accumulation() {
    let mut home = setup();
    let (ua, ub) = ("uid-A", "uid-B");
    seed_session(&mut home, ua, "a1", "需求评审", "/ws/项目甲/", Some("甲的需求内容"), None, 0, 1000);
    seed_session(&mut home, ua, "a2", "会议纪要", "/ws/项目乙", Some("乙的会议内容"), None, 0, 1000);
    let cfp0 = content_fps(&home, &[ua, ub]);
    assert_eq!(active_count(&home, &[ua]), 2, "初始 A 有 2 行");

    let r1 = copy_to(&mut home, "a1", ua, ub).unwrap();
    let r2 = copy_to(&mut home, "a2", ua, ub).unwrap();
    assert!(r1["newId"].as_str().unwrap().len() > 0 && r2["newId"].as_str().unwrap().len() > 0);
    assert_eq!(active_count(&home, &[ub]), 2, "复制后 B 有 2 行");

    let a1p = r1["newId"].as_str().unwrap().to_string();
    let a2p = r2["newId"].as_str().unwrap().to_string();
    let r3 = copy_to(&mut home, &a1p, ub, ua).unwrap();
    let r4 = copy_to(&mut home, &a2p, ub, ua).unwrap();
    assert!(
        r3["skipped"].as_bool().unwrap() && r4["skipped"].as_bool().unwrap(),
        "B->A 回复制应被跳过(防雪球)"
    );
    assert_eq!(active_count(&home, &[ua]), 2, "跳过回复制后 A 仍仅 2 行");

    let r5 = copy_to(&mut home, "a1", ua, ub).unwrap();
    let r6 = copy_to(&mut home, "a2", ua, ub).unwrap();
    assert!(
        r5["skipped"].as_bool().unwrap() && r6["skipped"].as_bool().unwrap(),
        "A->B 二次复制应被跳过"
    );

    let cfp1 = content_fps(&home, &[ua, ub]);
    assert_eq!(cfp1, cfp0, "雪球后内容指纹集合不变(零丢失)");
    assert_eq!(active_count(&home, &[ua]), 2, "A 无重复行");
    assert_eq!(active_count(&home, &[ub]), 2, "B 无重复行");
}

#[test]
fn e2e_e5_dedup_keeps_unique() {
    let mut home = setup();
    let uid = "uid-A";
    seed_session(&mut home, uid, "a1", "需求评审", "/ws/项目甲/", Some("甲的需求内容"), None, 0, 2000);
    seed_session(&mut home, uid, "a2", "会议纪要", "/ws/项目乙", Some("乙的会议内容"), None, 0, 2000);
    seed_duplicate(&mut home, uid, "a1_dup", "/ws/项目甲/", "甲的需求内容", 1000);
    seed_duplicate(&mut home, uid, "a2_dup", "/ws/项目乙", "乙的会议内容", 1000);
    assert_eq!(active_count(&home, &[uid]), 4, "去重前 A 有 4 行(2 原件+2 遗留重复)");
    let cfp0 = content_fps(&home, &[uid]);
    assert_eq!(cfp0.len(), 2, "去重前内容指纹为 2 份");

    let res = dedup_for(&mut home, uid);
    assert_eq!(res["removed"].as_u64().unwrap(), 2, "去重应移除 2 份重复");
    assert_eq!(active_count(&home, &[uid]), 2, "去重后回到 2 行");
    let cfp1 = content_fps(&home, &[uid]);
    assert_eq!(cfp1, cfp0, "去重后内容指纹不变(零丢失)");

    for cid in ["a1", "a2"] {
        assert!(find_jsonl(&home, cid).is_some(), "原件 {cid} 存活且 jsonl 完整");
    }
    for cid in ["a1_dup", "a2_dup"] {
        assert!(find_jsonl(&home, cid).is_none(), "重复 {cid} 的 jsonl 已清理");
    }
    assert_eq!(edge_leftover(&home, &["a1_dup", "a2_dup"]), 0, "被删重复云端映射已清理");
}

#[test]
fn e2e_e6_same_name_diff_content() {
    let mut home = setup();
    let uid = "uid-A";
    seed_session(&mut home, uid, "x1", "无标题", "/ws/项目甲/", Some("内容一：关于方案A"), None, 0, 1000);
    seed_session(&mut home, uid, "x2", "无标题", "/ws/项目甲/", Some("内容二：关于方案B"), None, 0, 1000);
    assert_eq!(active_count(&home, &[uid]), 2, "去重前 2 条同名会话");
    let res = dedup_for(&mut home, uid);
    assert_eq!(res["removed"].as_u64().unwrap(), 0, "同名不同内容者不应误删");
    assert_eq!(active_count(&home, &[uid]), 2, "两者均应存活");
    assert_eq!(content_fps(&home, &[uid]).len(), 2, "内容指纹仍为 2 份");
}

#[test]
fn e2e_e7_empty_sessions_not_merged() {
    let mut home = setup();
    let uid = "uid-A";
    seed_session(&mut home, uid, "e1", "空任务", "", None, None, 1, 1000);
    seed_session(&mut home, uid, "e2", "空任务", "", None, None, 1, 1000);
    seed_session(&mut home, uid, "e3", "空任务", "", None, None, 1, 1000);
    assert_eq!(active_count(&home, &[uid]), 3, "去重前 3 个空会话");
    let res = dedup_for(&mut home, uid);
    assert_eq!(res["removed"].as_u64().unwrap(), 0, "空会话各自唯一键，不应合并");
    assert_eq!(active_count(&home, &[uid]), 3, "三者均应存活");
}

#[test]
fn e2e_e8_claw_not_copyable() {
    let mut home = setup();
    let (ua, ub) = ("uid-A", "uid-B");
    seed_session(&mut home, ua, "acl", "claw绑定", "/ws/Claw", Some("claw内容"), None, 0, 1000);
    let before_b = active_count(&home, &[ub]);
    let res = copy_to(&mut home, "acl", ua, ub);
    assert!(res.is_err(), "复制 claw 应返回错误");
    assert!(find_jsonl(&home, "acl").is_some(), "源 claw 会话仍存活");
    assert_eq!(active_count(&home, &[ub]), before_b, "目标未受影响");
}

#[test]
fn e2e_e9_empty_and_missing_db() {
    let mut home = setup();
    let res = dedup_for(&mut home, "uid-EMPTY");
    assert!(
        res["ok"].as_bool().unwrap() && res["removed"].as_u64().unwrap() == 0,
        "空账号去重应 ok 且 removed==0"
    );
    let mut missing = Home { db: None, edge: None, files: BTreeMap::new() };
    let res2 = dedup_for(&mut missing, "uid-X");
    assert!(
        !res2["ok"].as_bool().unwrap() && res2["removed"].as_u64().unwrap() == 0,
        "缺失 db 应优雅返回 ok:false"
    );
}

#[test]
fn e2e_e10_copy_missing_source() {
    let mut home = setup();
    let (ua, ub) = ("uid-A", "uid-B");
    seed_session(&mut home, ua, "a1", "需求评审", "/ws/项目甲/", Some("甲的需求内容"), None, 0, 1000);
    let before_a = active_count(&home, &[ua]);
    let before_b = active_count(&home, &[ub]);
    let _res = copy_to(&mut home, "不存在的cid", ua, ub);
    assert_eq!(active_count(&home, &[ub]), before_b, "缺失源复制：B 行数不变");
    assert_eq!(active_count(&home, &[ua]), before_a, "缺失源复制：A 行数不变");
    assert!(find_jsonl(&home, "不存在的cid").is_none(), "缺失源复制：未产生孤儿 jsonl");
}

#[test]
fn e2e_e11_chinese_paths() {
    let mut home = setup();
    let (ua, ub) = ("uid-A", "uid-B");
    let cwd = "/工作区/项目甲/";
    seed_session(&mut home, ua, "z1", "中文标题", cwd, Some("中文会话内容"), None, 0, 1000);
    let res = copy_to(&mut home, "z1", ua, ub).unwrap();
    assert!(res["newId"].as_str().unwrap().len() > 0, "中文路径复制应成功");
    let new_id = res["newId"].as_str().unwrap().to_string();
    let p = find_jsonl(&home, &new_id);
    assert_eq!(
        p.map(|p| p.rsplit_once('/').map(|(directory, _)| directory.to_string())),
        Some(Some("项目甲".to_string())),
        "新 jsonl 应落于正确子目录(尾部分隔符已归一)"
    );
    let res2 = dedup_for(&mut home, ub);
    assert_eq!(res2["removed"].as_u64().unwrap(), 0, "中文路径去重 removed==0");
}

#[test]
fn e2e_e12_interleaved_invariant() {
    let mut home = setup();
    let (ua, ub) = ("uid-A", "uid-B");
    seed_session(&mut home, ua, "a1", "需求评审", "/ws/项目甲/", Some("甲的需求内容"), None, 0, 1000);
    seed_session(&mut home, ua, "a2", "会议纪要", "/ws/项目乙", Some("乙的会议内容"), None, 0, 1000);
    seed_session(&mut home, ua, "a3", "问答", "", Some("问答内容"), None, 1, 1000);
    seed_session(&mut home, ua, "ae", "空任务", "", None, None, 1, 1000);

    let cfp0 = content_fps(&home, &[ua, ub]);
    let mut expected = active_count(&home, &[ua, ub]);
    let assert_invariant = |home: &Home, expected: usize, tag: &str| {
        let cfp = content_fps(home, &[ua, ub]);
        assert_eq!(cfp, cfp0, "[{tag}] 内容指纹集合不变(零丢失)");
        let njs = active_count(home, &[ua, ub]);
        assert_eq!(njs, expected, "[{tag}] 活跃行数应等于预期(无意外丢失)");
    };
    assert_invariant(&home, expected, "init");

    copy_to(&mut home, "a1", ua, ub).unwrap();
    expected += 1;
    copy_to(&mut home, "a2", ua, ub).unwrap();
    expected += 1;
    assert_invariant(&home, expected, "after-copy-ab");

    for bid in ids(&list_for(&home, ub)) {
        let r = copy_to(&mut home, &bid, ub, ua).unwrap();
        assert!(r["skipped"].as_bool().unwrap(), "B->A 回复制应跳过");
    }
    assert_invariant(&home, expected, "after-backcopy");

    dedup_for(&mut home, ua);
    dedup_for(&mut home, ub);
    assert_invariant(&home, expected, "after-dedup");

    let r = copy_to(&mut home, "ae", ua, ub).unwrap();
    assert!(!r["skipped"].as_bool().unwrap(), "空会话复制应成功新增");
    expected += 1;
    assert_invariant(&home, expected, "after-copy-empty");

    dedup_for(&mut home, ub);
    assert_invariant(&home, expected, "after-dedup2");

    let _ = list_for(&home, ua);
    let _ = list_for(&home, ub);
    assert_invariant(&home, expected, "final");

    assert_eq!(content_fps(&home, &[ua, ub]), cfp0, "最终内容指纹 == 初始内容指纹");
}

#[test]
fn e2e_e13_title_upsert_no_duplicate() {
    let mut home = setup();
    let (ua, ub) = ("uid-A", "uid-B");
    seed_session(&mut home, ua, "s1", "需求评审", "/ws/项目甲/", Some("甲-初版需求"), None, 0, 1000);
    seed_session(&mut home, ua, "s2", "需求评审", "/ws/项目甲/", Some("甲-定稿需求"), None, 0, 2000);
    assert_eq!(active_count(&home, &[ua]), 2, "源账号 2 份同名会话");

    copy_to(&mut home, "s1", ua, ub).unwrap();
    let r2 = copy_to(&mut home, "s2", ua, ub).unwrap();
    assert!(!r2["skipped"].as_bool().unwrap(), "第二份应为同步(updated)而非跳过");
    assert_eq!(active_count(&home, &[ub]), 1, "目标账号同名会话只应剩 1 份(无重复)");
    let new_id = r2["newId"].as_str().unwrap().to_string();
    let p = find_jsonl(&home, &new_id).expect("目标会话 jsonl 应存在");
    let body = &home.files[&p];
    assert!(body.contains("甲-定稿需求"), "目标应保留最新一份(定稿)内容");
    assert!(!body.contains("甲-初版需求"), "旧版本内容不应残留");
    assert_eq!(content_fps(&home, &[ua]).len(), 2, "源账号内容指纹不变");
}

#[test]
fn e2e_e14_collapse_keeps_latest_retains_data() {
    let mut home = setup();
    let uid = "uid-A";
    seed_session(&mut home, uid, "a1", "需求评审", "/ws/项目甲/", Some("甲-v1"), None, 0, 1000);
    seed_session(&mut home, uid, "a2", "需求评审", "/ws/项目甲/", Some("甲-v2"), None, 0, 2000);
    seed_session(&mut home, uid, "a3", "需求评审", "/ws/项目甲/", Some("甲-v3"), None, 0, 3000);
    assert_eq!(active_count(&home, &[uid]), 3, "折叠前 3 份同名会话");

    let res = collapse_for(&mut home, uid);
    assert_eq!(res["removed"].as_u64().unwrap(), 2, "同工作区+同标题 3 份收起 2 份，保留最新 a3");
    assert_eq!(active_count(&home, &[uid]), 1, "折叠后剩 1 行");

    assert!(find_jsonl(&home, "a1").is_some(), "a1 正文文件保留(数据不丢)");
    assert!(find_jsonl(&home, "a2").is_some(), "a2 正文文件保留(数据不丢)");
    let kept = ids(&list_for(&home, uid));
    assert!(kept.contains(&"a3".to_string()), "保留同工作区同标题最新 a3");
    assert!(!kept.contains(&"a1".to_string()), "旧 a1 被折叠");
    assert!(!kept.contains(&"a2".to_string()), "旧 a2 被折叠");
}

#[test]
fn e2e_e15_collapse_keeps_diff_content_sessions() {
    let mut home = setup();
    let uid = "uid-A";
    seed_session(&mut home, uid, "s1", "牛牛文档工具", "/ws/牛牛/", Some("第1次需求A"), None, 0, 1000);
    seed_session(&mut home, uid, "s2", "牛牛文档工具", "/ws/牛牛/", Some("第2次需求B"), None, 0, 2000);
    seed_session(&mut home, uid, "s3", "牛牛文档工具", "/ws/牛牛/", Some("第3次需求C"), None, 0, 3000);
    seed_session(&mut home, uid, "s4", "牛牛文档工具-改", "/ws/牛牛/", Some("另一标题"), None, 0, 1500);
    seed_session(&mut home, uid, "s5", "牛牛文档工具", "/ws/牛牛-2/", Some("另一空间"), None, 0, 1500);
    assert_eq!(active_count(&home, &[uid]), 5, "同空间同名 3 份 + 对照组 2 份");

    let res = collapse_for(&mut home, uid);
    assert_eq!(res["removed"].as_u64().unwrap(), 2, "仅同工作区+同标题的 3 份收起 2 份(s1,s2)");
    assert_eq!(active_count(&home, &[uid]), 3, "剩 s3 + 对照组 s4/s5 共 3 行");

    let kept = ids(&list_for(&home, uid));
    assert!(kept.contains(&"s3".to_string()), "保留最新 s3");
    assert!(kept.contains(&"s4".to_string()), "不同标题 s4 不被误折叠");
    assert!(kept.contains(&"s5".to_string()), "不同工作区 s5 不被误折叠");
    for id in ["s1", "s2", "s3"] {
        assert!(find_jsonl(&home, id).is_some(), "{} 正文保留", id);
    }
}
