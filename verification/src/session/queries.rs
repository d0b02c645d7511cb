//! The statements by which conversations are read. Older databases lack some of the columns.

use vstd::prelude::*;

verus! {

broadcast use vstd::string::group_string_axioms;

/// Lists the conversations of an account, the one that was changed last first.
pub open spec fn list_statement(has_custom: bool, has_playground: bool) -> Seq<char> {
    if has_custom && has_playground {
        "SELECT id, cwd, title, custom_title, updated_at, is_playground FROM sessions WHERE user_id = ?1 AND deleted_at IS NULL ORDER BY updated_at DESC"@
    } else if has_custom {
        "SELECT id, cwd, title, custom_title, updated_at, 0 FROM sessions WHERE user_id = ?1 AND deleted_at IS NULL ORDER BY updated_at DESC"@
    } else if has_playground {
        "SELECT id, cwd, title, NULL, updated_at, is_playground FROM sessions WHERE user_id = ?1 AND deleted_at IS NULL ORDER BY updated_at DESC"@
    } else {
        "SELECT id, cwd, title, NULL, updated_at, 0 FROM sessions WHERE user_id = ?1 AND deleted_at IS NULL ORDER BY updated_at DESC"@
    }
}

/// Lists the conversations of an account, the one that was changed last first.
pub fn list_query(has_custom: bool, has_playground: bool) -> (r: &'static str)
    ensures
        r@ == list_statement(has_custom, has_playground),
{
    if has_custom && has_playground {
        "SELECT id, cwd, title, custom_title, updated_at, is_playground FROM sessions WHERE user_id = ?1 AND deleted_at IS NULL ORDER BY updated_at DESC"
    } else if has_custom {
        "SELECT id, cwd, title, custom_title, updated_at, 0 FROM sessions WHERE user_id = ?1 AND deleted_at IS NULL ORDER BY updated_at DESC"
    } else if has_playground {
        "SELECT id, cwd, title, NULL, updated_at, is_playground FROM sessions WHERE user_id = ?1 AND deleted_at IS NULL ORDER BY updated_at DESC"
    } else {
        "SELECT id, cwd, title, NULL, updated_at, 0 FROM sessions WHERE user_id = ?1 AND deleted_at IS NULL ORDER BY updated_at DESC"
    }
}

/// Reads the names of the conversations of an account.
pub open spec fn title_statement(has_custom: bool) -> Seq<char> {
    if has_custom {
        "SELECT id, cwd, title, custom_title, updated_at FROM sessions WHERE user_id = ?1 AND deleted_at IS NULL"@
    } else {
        "SELECT id, cwd, title, NULL, updated_at FROM sessions WHERE user_id = ?1 AND deleted_at IS NULL"@
    }
}

/// Reads the names of the conversations of an account.
pub fn title_query(has_custom: bool) -> (r: &'static str)
    ensures
        r@ == title_statement(has_custom),
{
    if has_custom {
        "SELECT id, cwd, title, custom_title, updated_at FROM sessions WHERE user_id = ?1 AND deleted_at IS NULL"
    } else {
        "SELECT id, cwd, title, NULL, updated_at FROM sessions WHERE user_id = ?1 AND deleted_at IS NULL"
    }
}

/// Reads the conversations of an account by which duplicates are told, with no names.
pub const BODY_QUERY: &'static str = "SELECT id, cwd, NULL, NULL, updated_at FROM sessions WHERE user_id = ?1 AND deleted_at IS NULL";

/// Reads the conversations of an account that a copy is compared with, with no times. A database
/// without names of the user's own cannot be read so.
pub const COMPARED_QUERY: &'static str = "SELECT id, cwd, title, custom_title, NULL FROM sessions WHERE user_id = ?1 AND deleted_at IS NULL";

} // verus!
