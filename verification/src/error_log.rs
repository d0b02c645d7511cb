//! The error log: one JSON object a line, and only the last lines kept.
//!
//! What went wrong in the windows and in the background goes to the same file. A host reads the
//! file, asks this module what to write, and writes it; failing to write is not worth more than
//! losing the entry.

use crate::json::{
    field, field_views, has_distinct_names, json_document, json_integer, json_line, json_object,
    json_string, json_tree, lemma_record, object_tree, JsonTree,
};
use crate::paths::{path_at, FilePath};
use crate::text::{
    byte_len, byte_prefix, concat2, first_in, fitting, is_space, lemma_first_in,
    lemma_first_in_bounds, lemma_fitting, lines_of, same_text, split_lines, trim, trimmed, view_ref,
    views, without_cr, CharSet,
};
use crate::update::config::APP_VERSION;
use serde_json::Value;
use vstd::prelude::*;

verus! {

broadcast use vstd::string::group_string_axioms;

/// How many lines are kept.
pub const ERROR_LOG_MAX_LINES: usize = 200;

/// How many bytes of a detail are kept.
pub const ERROR_LOG_DETAIL_MAX_BYTES: usize = 4096;

/// The error log, in the store directory.
pub fn error_log_path(store_dir: &str) -> (r: FilePath)
    ensures
        r@ == path_at(store_dir@).below("error.log"@),
{
    FilePath::at(store_dir).join("error.log")
}

// ---------------------------------------------------------------------------
// Entries
// ---------------------------------------------------------------------------

/// The kind under which an error is logged: one of three.
pub open spec fn known_kind(kind: Seq<char>) -> Seq<char> {
    if kind == "frontend_crash"@ || kind == "frontend_unhandled"@ {
        kind
    } else {
        "backend"@
    }
}

/// The kind under which an error is logged.
pub fn normalize_kind(kind: &str) -> (r: &'static str)
    ensures
        r@ == known_kind(kind@),
{
    if same_text(kind, "frontend_crash") {
        "frontend_crash"
    } else if same_text(kind, "frontend_unhandled") {
        "frontend_unhandled"
    } else {
        "backend"
    }
}

/// As many whole characters of `detail` as fit in the bytes that are kept.
pub open spec fn kept_detail(detail: Seq<char>) -> Seq<char> {
    detail.take(fitting(detail, ERROR_LOG_DETAIL_MAX_BYTES as nat) as int)
}

/// As many whole characters of `detail` as fit in the bytes that are kept.
pub fn truncate_detail(detail: &str) -> (r: String)
    ensures
        r@ == kept_detail(detail@),
{
    byte_prefix(detail, ERROR_LOG_DETAIL_MAX_BYTES)
}

/// The six members of an entry.
pub open spec fn entry_fields(
    kind: Seq<char>,
    message: Seq<char>,
    detail: Seq<char>,
    at_ms: i64,
    os: Seq<char>,
) -> Seq<(Seq<char>, JsonTree)> {
    seq![
        ("ts"@, JsonTree::Number(Some(at_ms))),
        ("kind"@, JsonTree::Text(known_kind(kind))),
        ("message"@, JsonTree::Text(message)),
        ("detail"@, JsonTree::Text(kept_detail(detail))),
        ("appVersion"@, JsonTree::Text(APP_VERSION@)),
        ("os"@, JsonTree::Text(os)),
    ]
}

/// The members of an entry have different names.
proof fn lemma_entry_names(
    kind: Seq<char>,
    message: Seq<char>,
    detail: Seq<char>,
    at_ms: i64,
    os: Seq<char>,
)
    ensures
        has_distinct_names(entry_fields(kind, message, detail, at_ms, os)),
{
    reveal_strlit("ts");
    reveal_strlit("kind");
    reveal_strlit("message");
    reveal_strlit("detail");
    reveal_strlit("appVersion");
    reveal_strlit("os");
    assert("ts"@.len() == 2);
    assert("kind"@.len() == 4);
    assert("message"@.len() == 7);
    assert("detail"@.len() == 6);
    assert("appVersion"@.len() == 10);
    assert("os"@.len() == 2);
    assert("ts"@[0] != "os"@[0]);
}

/// An entry of the log.
pub fn build_entry(kind: &str, message: &str, detail: &str, at_ms: i64, os: &str) -> (r: Value)
    ensures
        json_tree(r) == object_tree(entry_fields(kind@, message@, detail@, at_ms, os@)),
{
    let mut fields: Vec<(String, Value)> = Vec::new();
    fields.push(field("ts", json_integer(at_ms)));
    fields.push(field("kind", json_string(normalize_kind(kind))));
    fields.push(field("message", json_string(message)));
    fields.push(field("detail", json_string(truncate_detail(detail).as_str())));
    fields.push(field("appVersion", json_string(APP_VERSION)));
    fields.push(field("os", json_string(os)));
    proof {
        assert(field_views(fields@) =~= entry_fields(kind@, message@, detail@, at_ms, os@));
        lemma_entry_names(kind@, message@, detail@, at_ms, os@);
    }
    json_object(fields)
}

// ---------------------------------------------------------------------------
// Lines
// ---------------------------------------------------------------------------

/// The lines that hold more than white space.
pub open spec fn nonblank_lines(lines: Seq<Seq<char>>) -> Seq<Seq<char>>
    decreases lines.len(),
{
    if lines.len() == 0 {
        Seq::empty()
    } else if trimmed(lines.last()).len() > 0 {
        nonblank_lines(lines.drop_last()).push(lines.last())
    } else {
        nonblank_lines(lines.drop_last())
    }
}

/// The lines of a log that is there, and none where there is no readable one.
pub open spec fn logged(text: Option<Seq<char>>) -> Seq<Seq<char>> {
    match text {
        Some(text) => nonblank_lines(lines_of(text)),
        None => Seq::empty(),
    }
}

/// The lines of a log. `text` is the content of the file, where it could be read.
pub fn read_lines(text: Option<&str>) -> (r: Vec<String>)
    ensures
        views(r@) == logged(view_ref(text)),
{
    let mut out: Vec<String> = Vec::new();
    if let Some(text) = text {
        let lines = split_lines(text);
        let mut i: usize = 0;
        assert(views(out@) =~= nonblank_lines(views(lines@).take(0)));
        while i < lines.len()
            invariant
                i <= lines@.len(),
                views(out@) == nonblank_lines(views(lines@).take(i as int)),
            decreases lines@.len() - i,
        {
            let ghost before = views(out@);
            assert(views(lines@).take(i + 1).drop_last() =~= views(lines@).take(i as int));
            if !trim(lines[i].as_str()).as_str().is_empty() {
                let line = lines[i].clone();
                out.push(line);
                assert(views(out@) =~= before.push(lines@[i as int]@));
            }
            i += 1;
        }
        assert(views(lines@).take(i as int) =~= views(lines@));
    } else {
        assert(views(out@) =~= Seq::empty());
    }
    out
}

/// How a line gets into the log.
pub enum LogWrite {
    /// This text is put at the end of the file.
    Append(String),
    /// The file is replaced, in one step, by one with this text.
    Rewrite(String),
}

/// The contents of a `LogWrite`.
pub enum WriteView {
    Append(Seq<char>),
    Rewrite(Seq<char>),
}

impl View for LogWrite {
    type V = WriteView;

    open spec fn view(&self) -> WriteView {
        match self {
            LogWrite::Append(text) => WriteView::Append(text@),
            LogWrite::Rewrite(text) => WriteView::Rewrite(text@),
        }
    }
}

/// Lines, each with its ending.
pub open spec fn terminated(lines: Seq<Seq<char>>) -> Seq<char>
    decreases lines.len(),
{
    if lines.len() == 0 {
        Seq::empty()
    } else {
        terminated(lines.drop_last()) + lines.last() + "\n"@
    }
}

/// The last lines, as many as are kept.
pub open spec fn last_kept(lines: Seq<Seq<char>>) -> Seq<Seq<char>> {
    if lines.len() > ERROR_LOG_MAX_LINES {
        lines.skip(lines.len() - ERROR_LOG_MAX_LINES)
    } else {
        lines
    }
}

/// How `line` gets into a log with the lines `lines`: at the end while there is room, and else by
/// writing the file anew with the last lines.
pub open spec fn write_of(lines: Seq<Seq<char>>, line: Seq<char>) -> WriteView {
    if lines.len() < ERROR_LOG_MAX_LINES {
        WriteView::Append(line + "\n"@)
    } else {
        WriteView::Rewrite(terminated(last_kept(lines.push(line))))
    }
}

/// How `line` gets into the log whose content is `existing`, where it could be read.
pub fn append_line(existing: Option<&str>, line: &str) -> (r: LogWrite)
    ensures
        r@ == write_of(logged(view_ref(existing)), line@),
{
    let mut lines = read_lines(existing);
    let ghost before = views(lines@);
    lines.push(line.to_string());
    assert(views(lines@) =~= before.push(line@));
    if lines.len() <= ERROR_LOG_MAX_LINES {
        return LogWrite::Append(concat2(line, "\n"));
    }
    let start: usize = lines.len() - ERROR_LOG_MAX_LINES;
    let mut text = String::new();
    let mut i: usize = start;
    let ghost kept = last_kept(views(lines@));
    assert(kept.take(0) =~= Seq::empty());
    while i < lines.len()
        invariant
            start <= i <= lines@.len(),
            start == lines@.len() - ERROR_LOG_MAX_LINES,
            kept == views(lines@).skip(start as int),
            text@ == terminated(kept.take(i - start)),
        decreases lines@.len() - i,
    {
        text.append(lines[i].as_str());
        text.append("\n");
        assert(kept.take(i - start + 1).drop_last() =~= kept.take(i - start));
        i += 1;
    }
    assert(kept.take(i - start) =~= kept);
    LogWrite::Rewrite(text)
}

// ---------------------------------------------------------------------------
// Recording
// ---------------------------------------------------------------------------

/// What is to be written for an error.
pub struct LogPlan {
    /// The file to write to.
    pub path: FilePath,
    /// The line for the error.
    pub line: String,
    /// How the line gets into the file.
    pub write: LogWrite,
}

/// `line` is the entry for an error, on one line.
pub open spec fn is_entry_line(
    line: Seq<char>,
    kind: Seq<char>,
    message: Seq<char>,
    detail: Seq<char>,
    at_ms: i64,
    os: Seq<char>,
) -> bool {
    &&& json_document(line) == Some(object_tree(entry_fields(kind, message, detail, at_ms, os)))
    &&& is_log_line(line)
}

/// A line of text that a log gives back as it was put in.
pub open spec fn is_log_line(line: Seq<char>) -> bool {
    &&& !line.contains('\n')
    &&& line.len() > 0 ==> line.last() != '\r'
    &&& trimmed(line).len() > 0
}

/// What is to be written to the log `path`, whose content is `existing` where it could be read.
pub fn record_at(
    path: FilePath,
    existing: Option<&str>,
    kind: &str,
    message: &str,
    detail: &str,
    at_ms: i64,
    os: &str,
) -> (r: LogPlan)
    ensures
        r.path@ == path@,
        is_entry_line(r.line@, kind@, message@, detail@, at_ms, os@),
        r.write@ == write_of(logged(view_ref(existing)), r.line@),
{
    let entry = build_entry(kind, message, detail, at_ms, os);
    proof {
        lemma_record(entry_fields(kind@, message@, detail@, at_ms, os@));
    }
    let line = match json_line(&entry) {
        Some(line) => line,
        None => String::new(),
    };
    proof {
        assert(line@.last() != '\r') by {
            assert(line@[line@.len() - 1] == line@.last());
        }
        lemma_starts_visibly(line@);
    }
    let write = append_line(existing, line.as_str());
    LogPlan { path, line, write }
}

/// What is to be written for an error: where, the line, and how it gets there.
pub fn record(
    store_dir: &str,
    existing: Option<&str>,
    kind: &str,
    message: &str,
    detail: &str,
    at_ms: i64,
    os: &str,
) -> (r: LogPlan)
    ensures
        r.path@ == path_at(store_dir@).below("error.log"@),
        is_entry_line(r.line@, kind@, message@, detail@, at_ms, os@),
        r.write@ == write_of(logged(view_ref(existing)), r.line@),
{
    record_at(error_log_path(store_dir), existing, kind, message, detail, at_ms, os)
}

proof fn lemma_starts_visibly(line: Seq<char>)
    requires
        line.len() > 0,
        !is_space(line[0]),
    ensures
        trimmed(line).len() > 0,
{
    lemma_keeps_first(line);
}

proof fn lemma_keeps_first(s: Seq<char>)
    requires
        s.len() > 0,
        !is_space(s[0]),
    ensures
        crate::text::drop_trailing(s, CharSet::Whitespace).len() > 0,
    decreases s.len(),
{
    if is_space(s.last()) {
        assert(s.drop_last()[0] == s[0]);
        lemma_keeps_first(s.drop_last());
    }
}

// ---------------------------------------------------------------------------
// Laws
// ---------------------------------------------------------------------------

/// The content of the file after a write.
pub open spec fn written(existing: Seq<char>, write: WriteView) -> Seq<char> {
    match write {
        WriteView::Append(text) => existing + text,
        WriteView::Rewrite(text) => text,
    }
}

/// The content of a file that is empty or ends with a line ending.
pub open spec fn ends_a_line(text: Seq<char>) -> bool {
    text.len() > 0 ==> text.last() == '\n'
}

/// What is kept of a detail fits in the bytes that are kept, and is all of it where all of it fits;
/// one character more would not fit.
pub proof fn law_kept_details_fit(detail: Seq<char>)
    ensures
        byte_len(kept_detail(detail)) <= ERROR_LOG_DETAIL_MAX_BYTES,
        byte_len(detail) <= ERROR_LOG_DETAIL_MAX_BYTES ==> kept_detail(detail) == detail,
        forall|n: int|
            kept_detail(detail).len() < n <= detail.len() ==> byte_len(#[trigger] detail.take(n))
                > ERROR_LOG_DETAIL_MAX_BYTES,
{
    lemma_fitting(detail, ERROR_LOG_DETAIL_MAX_BYTES as nat);
    assert(detail.take(detail.len() as int) =~= detail);
}

proof fn lemma_lines_of_appended(text: Seq<char>, line: Seq<char>)
    requires
        ends_a_line(text),
        !line.contains('\n'),
        line.len() > 0 ==> line.last() != '\r',
    ensures
        lines_of(text + line + "\n"@) == lines_of(text).push(line),
    decreases text.len(),
{
    reveal_strlit("\n");
    let set = CharSet::One('\n');
    let whole = text + line + "\n"@;
    if text.len() == 0 {
        assert forall|k: int| 0 <= k < line.len() implies !set.has(#[trigger] whole[k]) by {
            assert(whole[k] == line[k]);
            assert(line.contains(line[k]));
        }
        lemma_first_in(whole, set, line.len() as int);
        assert(whole.take(line.len() as int) =~= line);
        assert(whole.skip(line.len() as int + 1) =~= Seq::empty());
        assert(lines_of(Seq::<char>::empty()) =~= Seq::empty());
        assert(lines_of(whole) =~= seq![line]);
        assert(lines_of(text) =~= Seq::empty());
    } else {
        lemma_first_in_bounds(text, set);
        let n = first_in(text, set) as int;
        assert(set.has(text[text.len() - 1]));
        assert(n < text.len());
        let rest = text.skip(n + 1);
        assert forall|k: int| 0 <= k < n implies !set.has(#[trigger] whole[k]) by {
            assert(whole[k] == text[k]);
        }
        assert(whole[n] == text[n]);
        lemma_first_in(whole, set, n);
        assert(whole.take(n) =~= text.take(n));
        assert(whole.skip(n + 1) =~= rest + line + "\n"@);
        if rest.len() > 0 {
            assert(rest.last() == text.last());
        }
        lemma_lines_of_appended(rest, line);
        assert(lines_of(whole) =~= seq![without_cr(text.take(n))] + lines_of(rest).push(line));
        assert(lines_of(whole) =~= lines_of(text).push(line));
    }
}

proof fn lemma_lines_of_terminated(lines: Seq<Seq<char>>)
    requires
        forall|i: int| 0 <= i < lines.len() ==> is_log_line(#[trigger] lines[i]),
    ensures
        lines_of(terminated(lines)) == lines,
        ends_a_line(terminated(lines)),
    decreases lines.len(),
{
    reveal_strlit("\n");
    if lines.len() == 0 {
        assert(lines_of(terminated(lines)) =~= lines);
    } else {
        let shorter = lines.drop_last();
        assert forall|i: int| 0 <= i < shorter.len() implies is_log_line(#[trigger] shorter[i]) by {
            assert(is_log_line(lines[i]));
        }
        lemma_lines_of_terminated(shorter);
        assert(is_log_line(lines[lines.len() - 1]));
        lemma_lines_of_appended(terminated(shorter), lines.last());
        assert(shorter.push(lines.last()) =~= lines);
    }
}

proof fn lemma_nonblank_is_all(lines: Seq<Seq<char>>)
    requires
        forall|i: int| 0 <= i < lines.len() ==> is_log_line(#[trigger] lines[i]),
    ensures
        nonblank_lines(lines) == lines,
    decreases lines.len(),
{
    if lines.len() > 0 {
        let shorter = lines.drop_last();
        assert forall|i: int| 0 <= i < shorter.len() implies is_log_line(#[trigger] shorter[i]) by {
            assert(is_log_line(lines[i]));
        }
        lemma_nonblank_is_all(shorter);
        assert(is_log_line(lines[lines.len() - 1]));
        assert(shorter.push(lines.last()) =~= lines);
    } else {
        assert(nonblank_lines(lines) =~= lines);
    }
}

proof fn lemma_lines_are_whole(text: Seq<char>)
    ensures
        forall|i: int|
            0 <= i < lines_of(text).len() ==> !(#[trigger] lines_of(text)[i]).contains('\n'),
    decreases text.len(),
{
    let set = CharSet::One('\n');
    lemma_first_in_bounds(text, set);
    let n = first_in(text, set) as int;
    if text.len() > 0 && n < text.len() {
        let line = without_cr(text.take(n));
        lemma_lines_are_whole(text.skip(n + 1));
        assert forall|i: int| 0 <= i < lines_of(text).len() implies !(
        #[trigger] lines_of(text)[i]).contains('\n') by {
            if i == 0 {
                assert forall|k: int| 0 <= k < line.len() implies line[k] != '\n' by {
                    assert(line[k] == text[k]);
                    assert(!set.has(text[k]));
                }
            } else {
                assert(lines_of(text)[i] == lines_of(text.skip(n + 1))[i - 1]);
            }
        }
    } else if text.len() > 0 {
        assert forall|k: int| 0 <= k < text.len() implies text[k] != '\n' by {
            assert(!set.has(text[k]));
        }
    }
}

proof fn lemma_nonblank_lines(lines: Seq<Seq<char>>)
    ensures
        forall|i: int|
            0 <= i < nonblank_lines(lines).len() ==> {
                let line = #[trigger] nonblank_lines(lines)[i];
                trimmed(line).len() > 0 && lines.contains(line)
            },
    decreases lines.len(),
{
    if lines.len() > 0 {
        let shorter = lines.drop_last();
        lemma_nonblank_lines(shorter);
        assert forall|i: int| 0 <= i < nonblank_lines(lines).len() implies ({
            let line = #[trigger] nonblank_lines(lines)[i];
            trimmed(line).len() > 0 && lines.contains(line)
        }) by {
            let line = nonblank_lines(lines)[i];
            if i < nonblank_lines(shorter).len() {
                assert(line == nonblank_lines(shorter)[i]);
                let k = choose|k: int| 0 <= k < shorter.len() && shorter[k] == line;
                assert(lines[k] == line);
            } else {
                assert(lines[lines.len() - 1] == line);
            }
        }
    }
}

/// After a write the log holds what it held before and the new line, and of these the last lines,
/// as many as are kept.
///
/// The content before must end with a line ending, as every write leaves it; and no line in it may
/// end in a carriage return of its own, which reading takes for a part of the line ending.
pub proof fn law_log_keeps_the_last_lines(existing: Seq<char>, line: Seq<char>)
    requires
        ends_a_line(existing),
        is_log_line(line),
        forall|i: int|
            0 <= i < logged(Some(existing)).len() ==> (#[trigger] logged(Some(existing))[i]).last()
                != '\r',
    ensures
        ({
            let before = logged(Some(existing));
            let after = written(existing, write_of(before, line));
            &&& logged(Some(after)) == last_kept(before.push(line))
            &&& logged(Some(after)).len() <= ERROR_LOG_MAX_LINES
            &&& ends_a_line(after)
        }),
{
    reveal_strlit("\n");
    let before = logged(Some(existing));
    let after = written(existing, write_of(before, line));
    if before.len() < ERROR_LOG_MAX_LINES {
        assert(existing + (line + "\n"@) =~= existing + line + "\n"@);
        lemma_lines_of_appended(existing, line);
        let lines = lines_of(existing);
        assert(lines.push(line).drop_last() =~= lines);
    } else {
        lemma_lines_are_whole(existing);
        lemma_nonblank_lines(lines_of(existing));
        let all = before.push(line);
        let kept = last_kept(all);
        assert forall|i: int| 0 <= i < kept.len() implies is_log_line(#[trigger] kept[i]) by {
            let k = i + all.len() - kept.len();
            assert(kept[i] == all[k]);
            if k < before.len() {
                assert(before[k].last() != '\r');
                let j = choose|j: int|
                    0 <= j < lines_of(existing).len() && lines_of(existing)[j] == before[k];
                assert(!lines_of(existing)[j].contains('\n'));
            }
        }
        lemma_lines_of_terminated(kept);
        lemma_nonblank_is_all(kept);
    }
}

/// The content of the log once `lines` were written to it, one after the other.
pub open spec fn log_after(existing: Seq<char>, lines: Seq<Seq<char>>) -> Seq<char>
    decreases lines.len(),
{
    if lines.len() == 0 {
        existing
    } else {
        let before = log_after(existing, lines.drop_last());
        written(before, write_of(logged(Some(before)), lines.last()))
    }
}

/// However many lines are written, the log then holds what it held at first and the new lines, and
/// of these the last, as many as are kept.
///
/// What it held at first must end with a line ending, and no line of that in a carriage return of
/// its own.
pub proof fn law_log_keeps_the_last_of_many_lines(existing: Seq<char>, lines: Seq<Seq<char>>)
    requires
        ends_a_line(existing),
        lines.len() > 0,
        forall|i: int| 0 <= i < lines.len() ==> is_log_line(#[trigger] lines[i]),
        forall|i: int|
            0 <= i < logged(Some(existing)).len() ==> (#[trigger] logged(Some(existing))[i]).last()
                != '\r',
    ensures
        logged(Some(log_after(existing, lines))) == last_kept(logged(Some(existing)) + lines),
        logged(Some(log_after(existing, lines))).len() <= ERROR_LOG_MAX_LINES,
        ends_a_line(log_after(existing, lines)),
    decreases lines.len(),
{
    let shorter = lines.drop_last();
    let line = lines.last();
    let first = logged(Some(existing));
    let before = log_after(existing, shorter);
    let held = logged(Some(before));
    assert(is_log_line(lines[lines.len() - 1]));
    if shorter.len() > 0 {
        assert forall|i: int| 0 <= i < shorter.len() implies is_log_line(#[trigger] shorter[i]) by {
            assert(is_log_line(lines[i]));
        }
        law_log_keeps_the_last_of_many_lines(existing, shorter);
        let all = first + shorter;
        assert forall|i: int| 0 <= i < held.len() implies (#[trigger] held[i]).last() != '\r' by {
            let k = i + all.len() - held.len();
            assert(held[i] == all[k]);
            if k < first.len() {
                assert(first[k].last() != '\r');
            } else {
                let added = shorter[k - first.len()];
                assert(is_log_line(added));
                assert(added.len() > 0) by {
                    if added.len() == 0 {
                        assert(trimmed(added) =~= Seq::empty());
                    }
                }
            }
        }
    }
    law_log_keeps_the_last_lines(before, line);
    assert(last_kept(held.push(line)) =~= last_kept(first + lines)) by {
        if shorter.len() > 0 {
            let all = first + shorter;
            assert(first + lines =~= all.push(line));
        } else {
            assert(first + lines =~= first.push(line));
        }
    }
}

} // verus!
