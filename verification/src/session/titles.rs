//! What a conversation is called, where it belongs, and what it says.

use crate::text::{
    chars_of, concat2, drop_trailing, eq_ignoring_case, last_piece, last_piece_start, matches_at,
    replace_text, replaced, same_ignoring_case, string_of, trim, trim_end_of, trimmed, view_opt,
    CharSet,
};
use vstd::prelude::*;

verus! {

broadcast use vstd::string::group_string_axioms;

/// A text without the white space around it, where anything is left.
pub open spec fn nonempty(value: Option<Seq<char>>) -> Option<Seq<char>> {
    match value {
        Some(s) => if trimmed(s).len() > 0 {
            Some(trimmed(s))
        } else {
            None
        },
        None => None,
    }
}

/// A text without the white space around it, where anything is left.
pub fn nonempty_text(value: Option<String>) -> (r: Option<String>)
    ensures
        view_opt(r) == nonempty(view_opt(value)),
{
    match value {
        Some(s) => {
            let t = trim(s.as_str());
            if t.as_str().is_empty() {
                None
            } else {
                Some(t)
            }
        },
        None => None,
    }
}

/// The name under which a conversation is shown: the one that the user gave it, else its title.
pub open spec fn display_title(
    title: Option<Seq<char>>,
    custom_title: Option<Seq<char>>,
) -> Seq<char> {
    match nonempty(custom_title) {
        Some(t) => t,
        None => match nonempty(title) {
            Some(t) => t,
            None => "(无标题)"@,
        },
    }
}

/// The name under which a conversation is shown.
pub fn session_display_title(title: Option<String>, custom_title: Option<String>) -> (r: String)
    ensures
        r@ == display_title(view_opt(title), view_opt(custom_title)),
{
    match nonempty_text(custom_title) {
        Some(t) => t,
        None => match nonempty_text(title) {
            Some(t) => t,
            None => "(无标题)".to_string(),
        },
    }
}

/// A working directory without the white space around it and the separators at its end.
pub open spec fn plain_cwd(cwd: Seq<char>) -> Seq<char> {
    drop_trailing(trimmed(cwd), CharSet::Slashes)
}

/// A working directory without the white space around it and the separators at its end.
pub fn normalize_cwd(cwd: &str) -> (r: String)
    ensures
        r@ == plain_cwd(cwd@),
{
    trim_end_of(trim(cwd).as_str(), CharSet::Slashes)
}

/// The directory is named `claw`, in any case. Such a directory belongs to a channel of one account,
/// and what happens in it is of no use to another.
pub open spec fn is_claw(cwd: Seq<char>) -> bool {
    same_ignoring_case(last_piece(plain_cwd(cwd), CharSet::Slashes), "claw"@)
}

/// Whether a working directory belongs to a channel of one account.
pub fn is_claw_workspace(cwd: &str) -> (r: bool)
    ensures
        r == is_claw(cwd@),
{
    let bare = normalize_cwd(cwd);
    let chars = chars_of(bare.as_str());
    let start = last_piece_start(&chars, 0, chars.len(), CharSet::Slashes);
    proof {
        assert(chars@.subrange(0, chars@.len() as int) =~= chars@);
    }
    eq_ignoring_case(string_of(&chars, start, chars.len()).as_str(), "claw")
}

/// What stands for the id of a conversation in a body that is compared.
pub const NEUTRAL_ID: &'static str = "\u{0}WB_SWITCH_NEUTRAL_ID\u{0}";

/// A body in which every mention of the conversation's own id is made neutral. Two copies of one
/// conversation, which differ in their ids only, become the same.
pub open spec fn neutral_body(text: Seq<char>, id: Seq<char>) -> Seq<char> {
    replaced(text, id, NEUTRAL_ID@)
}

/// A body in which every mention of the conversation's own id is made neutral.
pub fn normalize_jsonl(text: &str, id: &str) -> (r: String)
    ensures
        r@ == neutral_body(text@, id@),
{
    replace_text(text, id, NEUTRAL_ID)
}

/// The name of the file that holds the body of the conversation `id`.
pub open spec fn body_name(id: Seq<char>) -> Seq<char> {
    id + ".jsonl"@
}

/// The name of the file that holds the body of the conversation `id`.
pub fn body_file_name(id: &str) -> (r: String)
    ensures
        r@ == body_name(id@),
{
    concat2(id, ".jsonl")
}

/// The conversation whose body a file holds, by the name of the file; `None` where the file is no
/// body. There is no conversation without an id.
pub fn body_owner(file_name: &str) -> (r: Option<String>)
    ensures
        r matches Some(id) ==> id@.len() > 0 && file_name@ == body_name(id@),
        r is None ==> forall|id: Seq<char>|
            id.len() > 0 ==> file_name@ != #[trigger] body_name(id),
{
    proof {
        reveal_strlit(".jsonl");
    }
    let chars = chars_of(file_name);
    let ending = chars_of(".jsonl");
    if chars.len() <= ending.len() {
        return None;
    }
    let cut: usize = chars.len() - ending.len();
    if matches_at(&chars, &ending, cut) {
        let id = string_of(&chars, 0, cut);
        assert(file_name@ =~= body_name(id@)) by {
            assert(file_name@.subrange(cut as int, file_name@.len() as int) == ".jsonl"@);
            assert(file_name@ =~= file_name@.subrange(0, cut as int) + file_name@.subrange(
                cut as int,
                file_name@.len() as int,
            ));
        }
        Some(id)
    } else {
        assert forall|id: Seq<char>| id.len() > 0 implies file_name@ != #[trigger] body_name(
            id,
        ) by {
            if file_name@ == body_name(id) {
                assert(file_name@.subrange(cut as int, cut + 6) =~= ".jsonl"@);
            }
        }
        None
    }
}

} // verus!
