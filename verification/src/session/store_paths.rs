//! Where the conversations of the client are kept, and whose account is signed in.

use crate::json::{json_get, json_tree, member, text_member, JsonTree};
use crate::paths::{path_at, FilePath, PathView};
use crate::text::view_opt;
use serde_json::Value;
use vstd::prelude::*;

verus! {

broadcast use vstd::string::group_string_axioms;

/// The directory of the client, in the home directory.
pub open spec fn client_dir(home: Seq<char>) -> PathView {
    path_at(home).below(".workbuddy"@)
}

/// The database of conversations.
pub fn workbuddy_db_path(home: &str) -> (r: FilePath)
    ensures
        r@ == client_dir(home@).below("workbuddy.db"@),
{
    FilePath::at(home).join(".workbuddy").join("workbuddy.db")
}

/// The database that says to which account a conversation belongs in the cloud.
pub fn edge_sync_db_path(home: &str) -> (r: FilePath)
    ensures
        r@ == client_dir(home@).below("edge-sync-mapping-v2.db"@),
{
    FilePath::at(home).join(".workbuddy").join("edge-sync-mapping-v2.db")
}

/// The directory of the bodies of conversations.
pub fn projects_dir(home: &str) -> (r: FilePath)
    ensures
        r@ == client_dir(home@).below("projects"@),
{
    FilePath::at(home).join(".workbuddy").join("projects")
}

/// The account that an authentication file names.
pub open spec fn signed_in(auth: JsonTree) -> Option<Seq<char>> {
    match member(auth, "account"@) {
        Some(account) => text_member(account, "uid"@),
        None => None,
    }
}

/// The account that is signed in. `auth` is the authentication file, where it could be read.
pub fn current_user_uid(auth: Option<&Value>) -> (r: Option<String>)
    ensures
        view_opt(r) == match auth {
            Some(auth) => signed_in(json_tree(*auth)),
            None => None,
        },
{
    match auth {
        Some(auth) => match json_get(auth, "account") {
            Some(account) => crate::json::get_text(account, "uid"),
            None => None,
        },
        None => None,
    }
}

} // verus!
