//! What is kept in the error log, and where files stand.

use crate::error_log::{
    entry_fields, is_entry_line, kept_detail, known_kind, last_kept, law_kept_details_fit, logged,
    nonblank_lines, terminated, write_of, LogWrite,
};
use crate::json::{json_document, lemma_member, lemma_no_member, member, object_tree, JsonTree};
use crate::laws::conversations::is_visible;
use crate::laws::lists::{is_selection, lemma_selection_same, lemma_selection_step};
use crate::laws::text::law_only_blank_text_is_trimmed_away;
use crate::paths::{path_at, FilePath};
use crate::session::store_paths::client_dir;
use crate::session::titles::body_name;
use crate::text::{byte_len, lines_of, views};
use crate::update::config::APP_VERSION;
use vstd::prelude::*;

verus! {

broadcast use vstd::string::group_string_axioms;

// ---------------------------------------------------------------------------
// Entries
// ---------------------------------------------------------------------------

/// The two kinds of a window are logged as they are, and everything else as the background's.
pub proof fn law_which_kind_is_logged(kind: Seq<char>)
    ensures
        kind == "frontend_crash"@ || kind == "frontend_unhandled"@ ==> known_kind(kind) == kind,
        kind != "frontend_crash"@ && kind != "frontend_unhandled"@ ==> known_kind(kind)
            == "backend"@,
{
}

/// The first characters of a detail are kept, as many as fit into 4096 bytes, and no character is
/// cut in two.
pub proof fn law_how_much_of_a_detail_is_kept(detail: Seq<char>)
    ensures
        ({
            let n = kept_detail(detail).len() as int;
            &&& n <= detail.len()
            &&& kept_detail(detail) == detail.take(n)
            &&& byte_len(kept_detail(detail)) <= 4096
            &&& forall|m: int| n < m <= detail.len() ==> byte_len(#[trigger] detail.take(m)) > 4096
        }),
{
    law_kept_details_fit(detail);
    crate::text::lemma_fitting(detail, 4096);
    assert(kept_detail(detail) =~= detail.take(kept_detail(detail).len() as int));
}

/// An entry holds its time, its kind, its message, as much of its detail as is kept, the version of
/// the application and the system, and nothing else.
pub proof fn law_what_an_entry_holds(
    kind: Seq<char>,
    message: Seq<char>,
    detail: Seq<char>,
    at_ms: i64,
    os: Seq<char>,
)
    ensures
        ({
            let entry = object_tree(entry_fields(kind, message, detail, at_ms, os));
            &&& member(entry, "ts"@) == Some(JsonTree::Number(Some(at_ms)))
            &&& member(entry, "kind"@) == Some(JsonTree::Text(known_kind(kind)))
            &&& member(entry, "message"@) == Some(JsonTree::Text(message))
            &&& member(entry, "detail"@) == Some(JsonTree::Text(kept_detail(detail)))
            &&& member(entry, "appVersion"@) == Some(JsonTree::Text(APP_VERSION@))
            &&& member(entry, "os"@) == Some(JsonTree::Text(os))
            &&& forall|key: Seq<char>|
                #[trigger] member(entry, key) is Some ==> key == "ts"@ || key == "kind"@ || key
                    == "message"@ || key == "detail"@ || key == "appVersion"@ || key == "os"@
        }),
{
    let fields = entry_fields(kind, message, detail, at_ms, os);
    reveal_strlit("ts");
    reveal_strlit("kind");
    reveal_strlit("message");
    reveal_strlit("detail");
    reveal_strlit("appVersion");
    reveal_strlit("os");
    assert("ts"@.len() == 2 && "kind"@.len() == 4 && "message"@.len() == 7);
    assert("detail"@.len() == 6 && "appVersion"@.len() == 10 && "os"@.len() == 2);
    assert("ts"@[0] != "os"@[0]);
    lemma_member(fields, 0);
    lemma_member(fields, 1);
    lemma_member(fields, 2);
    lemma_member(fields, 3);
    lemma_member(fields, 4);
    lemma_member(fields, 5);
    assert forall|key: Seq<char>| #[trigger] member(object_tree(fields), key) is Some implies key
        == "ts"@ || key == "kind"@ || key == "message"@ || key == "detail"@ || key == "appVersion"@
        || key == "os"@ by {
        if key != "ts"@ && key != "kind"@ && key != "message"@ && key != "detail"@ && key
            != "appVersion"@ && key != "os"@ {
            lemma_no_member(fields, key);
        }
    }
}

/// The line that is logged is one line of text, and reads as an entry with the time, the kind, the
/// message and the detail that were given.
pub proof fn law_what_a_line_of_the_log_reads_as(
    line: Seq<char>,
    kind: Seq<char>,
    message: Seq<char>,
    detail: Seq<char>,
    at_ms: i64,
    os: Seq<char>,
)
    requires
        is_entry_line(line, kind, message, detail, at_ms, os),
    ensures
        !line.contains('\n'),
        is_visible(line),
        line.last() != '\r',
        json_document(line) is Some,
        ({
            let entry = json_document(line)->0;
            &&& member(entry, "ts"@) == Some(JsonTree::Number(Some(at_ms)))
            &&& member(entry, "kind"@) == Some(JsonTree::Text(known_kind(kind)))
            &&& member(entry, "message"@) == Some(JsonTree::Text(message))
            &&& member(entry, "detail"@) == Some(JsonTree::Text(kept_detail(detail)))
            &&& member(entry, "appVersion"@) == Some(JsonTree::Text(APP_VERSION@))
            &&& member(entry, "os"@) == Some(JsonTree::Text(os))
        }),
{
    law_what_an_entry_holds(kind, message, detail, at_ms, os);
    law_only_blank_text_is_trimmed_away(line);
}

// ---------------------------------------------------------------------------
// Lines
// ---------------------------------------------------------------------------

spec fn visible(lines: Seq<Seq<char>>) -> spec_fn(int) -> bool {
    |i: int| is_visible(lines[i])
}

proof fn lemma_nonblank(lines: Seq<Seq<char>>, n: nat) -> (places: Seq<int>)
    requires
        n <= lines.len(),
    ensures
        is_selection(n, visible(lines), places),
        nonblank_lines(lines.take(n as int)).len() == places.len(),
        forall|p: int|
            0 <= p < places.len() ==> #[trigger] nonblank_lines(lines.take(n as int))[p]
                == lines[places[p]],
    decreases n,
{
    if n == 0 {
        Seq::empty()
    } else {
        let m = (n - 1) as nat;
        let before = lemma_nonblank(lines, m);
        let part = lines.take(n as int);
        assert(part.drop_last() =~= lines.take(m as int));
        assert(part.last() == lines[m as int]);
        lemma_selection_step(m, visible(lines), before);
        law_only_blank_text_is_trimmed_away(lines[m as int]);
        let places = if is_visible(lines[m as int]) {
            before.push(m as int)
        } else {
            before
        };
        assert forall|p: int| 0 <= p < places.len() implies #[trigger] nonblank_lines(part)[p]
            == lines[places[p]] by {
            if p < before.len() {
                assert(places[p] == before[p]);
                assert(nonblank_lines(part)[p] == nonblank_lines(lines.take(m as int))[p]);
            }
        }
        places
    }
}

/// The lines of a log are those of its text that are not blank, as they stand and in order; a log
/// that cannot be read has none.
pub proof fn law_which_lines_a_log_has(text: Seq<char>)
    ensures
        logged(None).len() == 0,
        exists|places: Seq<int>|
            #![trigger places.len()]
            is_selection(
                lines_of(text).len(),
                |i: int| is_visible(lines_of(text)[i]),
                places,
            ) && logged(Some(text)).len() == places.len() && forall|p: int|
                0 <= p < places.len() ==> #[trigger] logged(Some(text))[p]
                    == lines_of(text)[places[p]],
{
    let lines = lines_of(text);
    let places = lemma_nonblank(lines, lines.len());
    assert(lines.take(lines.len() as int) =~= lines);
    lemma_selection_same(lines.len(), visible(lines), |i: int| is_visible(lines_of(text)[i]), places);
    assert(logged(Some(text)).len() == places.len());
}

/// Every line that is written has its ending, and no more than that comes between two lines.
pub proof fn law_how_lines_are_written(a: Seq<Seq<char>>, b: Seq<Seq<char>>, line: Seq<char>)
    ensures
        terminated(a + b) == terminated(a) + terminated(b),
        terminated(seq![line]) == line + seq!['\n'],
        terminated(Seq::empty()).len() == 0,
    decreases b.len(),
{
    reveal_strlit("\n");
    let one = seq![line];
    assert(one.drop_last().len() == 0);
    assert(one.last() == line);
    assert("\n"@ =~= seq!['\n']);
    assert(terminated(one.drop_last()) =~= Seq::empty());
    assert(terminated(one) == terminated(one.drop_last()) + line + "\n"@);
    assert(terminated(one) =~= line + seq!['\n']);
    if b.len() == 0 {
        assert(a + b =~= a);
        assert(terminated(a) + terminated(b) =~= terminated(a));
    } else {
        let short = b.drop_last();
        assert((a + b).drop_last() =~= a + short);
        assert((a + b).last() == b.last());
        law_how_lines_are_written(a, short, line);
        assert(terminated(a) + terminated(short) + b.last() + "\n"@ =~= terminated(a) + (terminated(
            short,
        ) + b.last() + "\n"@));
    }
}

/// Two hundred lines are kept, the last ones. While there are fewer a line is put at the end of the
/// file; else the file is written anew with the last hundred and ninety-nine and the new one.
pub proof fn law_how_a_line_gets_into_the_log(lines: Seq<Seq<char>>, line: Seq<char>, w: LogWrite)
    requires
        w@ == write_of(lines, line),
    ensures
        lines.len() < 200 ==> (w matches LogWrite::Append(text) && text@ == line + seq!['\n']),
        lines.len() >= 200 ==> (w matches LogWrite::Rewrite(text) && text@ == terminated(
            lines.skip(lines.len() - 199),
        ) + line + seq!['\n']),
        last_kept(lines).len() <= 200,
        last_kept(lines).len() <= lines.len(),
        last_kept(lines).len() < 200 ==> last_kept(lines) == lines,
        last_kept(lines) == lines.skip(lines.len() - last_kept(lines).len()),
{
    reveal_strlit("\n");
    assert("\n"@ =~= seq!['\n']);
    assert(lines.skip(0) =~= lines);
    if lines.len() >= 200 {
        let all = lines.push(line);
        let kept = last_kept(all);
        assert(kept =~= lines.skip(lines.len() - 199) + seq![line]);
        law_how_lines_are_written(lines.skip(lines.len() - 199), seq![line], line);
        assert(terminated(lines.skip(lines.len() - 199)) + (line + seq!['\n']) =~= terminated(
            lines.skip(lines.len() - 199),
        ) + line + seq!['\n']);
    }
}

// ---------------------------------------------------------------------------
// Files
// ---------------------------------------------------------------------------

/// A path below a directory has that directory's names and one more; the client keeps its files in
/// a directory of its own in the home directory.
pub proof fn law_where_files_stand(base: Seq<char>, name: Seq<char>, file: FilePath, nested: FilePath)
    requires
        file@ == path_at(base).below(name),
        nested@ == client_dir(base).below(name),
    ensures
        file.base@ == base,
        file.names@.len() == 1,
        file.names@[0]@ == name,
        nested.base@ == base,
        nested.names@.len() == 2,
        nested.names@[0]@ == ".workbuddy"@,
        nested.names@[1]@ == name,
{
    assert(views(file.names@).len() == 1);
    assert(views(file.names@)[0] == file.names@[0]@);
    assert(views(nested.names@).len() == 2);
    assert(views(nested.names@)[0] == nested.names@[0]@);
    assert(views(nested.names@)[1] == nested.names@[1]@);
}

/// The body of a conversation stands in a file that is named after its id, with the ending `.jsonl`;
/// no two conversations share one.
pub proof fn law_how_bodies_are_named(id: Seq<char>, other: Seq<char>)
    ensures
        body_name(id).len() == id.len() + 6,
        body_name(id).take(id.len() as int) == id,
        body_name(id).skip(id.len() as int) == seq!['.', 'j', 's', 'o', 'n', 'l'],
        body_name(id) == body_name(other) ==> id == other,
{
    reveal_strlit(".jsonl");
    assert(body_name(id).take(id.len() as int) =~= id);
    assert(body_name(other).take(other.len() as int) =~= other);
    assert(body_name(id).skip(id.len() as int) =~= seq!['.', 'j', 's', 'o', 'n', 'l']);
}

} // verus!
