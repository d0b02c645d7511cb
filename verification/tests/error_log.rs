use serde_json::Value;
use wb_switch_core::error_log::{
    append_line, build_entry, error_log_path, normalize_kind, read_lines, record, record_at,
    truncate_detail, LogPlan, LogWrite, ERROR_LOG_DETAIL_MAX_BYTES, ERROR_LOG_MAX_LINES,
};
use wb_switch_core::paths::FilePath;
use wb_switch_core::update::config::APP_VERSION;

const OS: &str = "linux";

/// A log file kept in memory.
struct MemoryLog {
    text: Option<String>,
}

impl MemoryLog {
    fn new() -> Self {
        MemoryLog { text: None }
    }

    fn apply(&mut self, plan: LogPlan) {
        match plan.write {
            LogWrite::Append(text) => self.text.get_or_insert_with(String::new).push_str(&text),
            LogWrite::Rewrite(text) => self.text = Some(text),
        }
    }

    fn record(&mut self, kind: &str, message: &str, detail: &str, at_ms: i64) {
        let plan = record_at(
            FilePath::at("/store/error.log"),
            self.text.as_deref(),
            kind,
            message,
            detail,
            at_ms,
            OS,
        );
        self.apply(plan);
    }

    fn entries(&self) -> Vec<Value> {
        self.text
            .as_deref()
            .unwrap()
            .lines()
            .map(|line| serde_json::from_str::<Value>(line).expect("每行都必须是合法 JSON"))
            .collect()
    }
}

fn text(value: &Value) -> &str {
    value.as_str().unwrap()
}

#[test]
fn error_log_ring_keeps_only_the_last_200_lines() {
    let mut log = MemoryLog::new();
    for index in 0..250i64 {
        log.record("frontend_unhandled", &format!("错误 {index}"), "", index);
    }

    let lines: Vec<&str> = log.text.as_deref().unwrap().lines().collect();
    assert_eq!(lines.len(), ERROR_LOG_MAX_LINES);

    let entries = log.entries();
    assert_eq!(entries.len(), ERROR_LOG_MAX_LINES);
    assert_eq!(text(&entries[0]["message"]), "错误 50");
    assert_eq!(entries[0]["ts"].as_i64(), Some(50));
    assert_eq!(text(&entries[199]["message"]), "错误 249");
    assert_eq!(entries[199]["ts"].as_i64(), Some(249));

    log.record("backend", "错误 250", "", 250);
    let entries = log.entries();
    assert_eq!(entries.len(), ERROR_LOG_MAX_LINES);
    assert_eq!(text(&entries[0]["message"]), "错误 51");
    assert_eq!(text(&entries[199]["message"]), "错误 250");
}

#[test]
fn error_log_entry_has_fixed_fields_and_truncates_detail() {
    let mut log = MemoryLog::new();

    log.record("frontend_crash", "渲染崩溃", "堆栈信息", 1_700_000_000_000);
    let entries = log.entries();
    assert_eq!(entries.len(), 1);
    let entry = entries[0].as_object().unwrap();
    assert_eq!(entry.len(), 6, "字段集固定为 ts/kind/message/detail/appVersion/os");
    assert_eq!(entry["ts"].as_i64(), Some(1_700_000_000_000i64));
    assert_eq!(text(&entry["kind"]), "frontend_crash");
    assert_eq!(text(&entry["message"]), "渲染崩溃");
    assert_eq!(text(&entry["detail"]), "堆栈信息");
    assert_eq!(text(&entry["appVersion"]), APP_VERSION);
    assert_eq!(text(&entry["os"]), OS);

    log.record("something-else", "未知来源", "", 2);
    let entries = log.entries();
    assert_eq!(text(&entries[1]["kind"]), "backend");

    let ascii = "x".repeat(ERROR_LOG_DETAIL_MAX_BYTES + 100);
    log.record("backend", "超长 detail", &ascii, 3);
    let entries = log.entries();
    assert_eq!(
        entries[2]["detail"].as_str().unwrap().len(),
        ERROR_LOG_DETAIL_MAX_BYTES
    );

    let wide = "错".repeat(3000);
    log.record("backend", "多字节 detail", &wide, 4);
    let entries = log.entries();
    let detail = entries[3]["detail"].as_str().unwrap();
    assert_eq!(detail.len(), ERROR_LOG_DETAIL_MAX_BYTES - 1);
    assert!(detail.chars().all(|c| c == '错'));
}

#[test]
fn the_log_lies_in_the_store_directory() {
    let path = error_log_path("/home/me/.wb-switch");
    assert_eq!(path.base, "/home/me/.wb-switch");
    assert_eq!(path.names, vec!["error.log"]);
    let plan = record("/home/me/.wb-switch/", None, "backend", "m", "d", 7, OS);
    assert_eq!(plan.path.base, "/home/me/.wb-switch/");
    assert_eq!(plan.path.names, vec!["error.log"]);
    let entry: Value = serde_json::from_str(&plan.line).unwrap();
    assert_eq!(entry, build_entry("backend", "m", "d", 7, OS));
    assert!(matches!(plan.write, LogWrite::Append(text) if text == format!("{}\n", plan.line)));
}

#[test]
fn kinds_are_one_of_three() {
    assert_eq!(normalize_kind("frontend_crash"), "frontend_crash");
    assert_eq!(normalize_kind("frontend_unhandled"), "frontend_unhandled");
    assert_eq!(normalize_kind("backend"), "backend");
    assert_eq!(normalize_kind("Frontend_crash"), "backend");
    assert_eq!(normalize_kind(""), "backend");
}

#[test]
fn details_are_cut_between_characters() {
    assert_eq!(truncate_detail("short"), "short");
    let exact = "x".repeat(ERROR_LOG_DETAIL_MAX_BYTES);
    assert_eq!(truncate_detail(&exact), exact);
    let straddling = format!("{}错", "x".repeat(ERROR_LOG_DETAIL_MAX_BYTES - 1));
    assert_eq!(truncate_detail(&straddling), "x".repeat(ERROR_LOG_DETAIL_MAX_BYTES - 1));
}

#[test]
fn blank_lines_of_a_log_are_not_kept() {
    assert_eq!(read_lines(None), Vec::<String>::new());
    assert_eq!(read_lines(Some("a\n\n  \r\nb\r\n\u{3000}\nc")), vec!["a", "b", "c"]);
    let full = "old\n".repeat(ERROR_LOG_MAX_LINES);
    match append_line(Some(&full), "new") {
        LogWrite::Rewrite(text) => {
            assert_eq!(text.lines().count(), ERROR_LOG_MAX_LINES);
            assert!(text.ends_with("old\nnew\n"));
        }
        LogWrite::Append(_) => panic!("a full log is written anew"),
    }
    let almost = "old\n".repeat(ERROR_LOG_MAX_LINES - 1);
    assert!(matches!(append_line(Some(&almost), "new"), LogWrite::Append(text) if text == "new\n"));
}

#[test]
fn a_message_with_line_endings_stays_on_one_line() {
    let mut log = MemoryLog::new();
    log.record("backend", "first\r\nsecond", "a\nb", 1);
    log.record("backend", "third", "", 2);
    let entries = log.entries();
    assert_eq!(entries.len(), 2);
    assert_eq!(text(&entries[0]["message"]), "first\r\nsecond");
    assert_eq!(text(&entries[1]["message"]), "third");
}
