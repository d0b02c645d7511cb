//! A conversation as it is stored: a row of the database, and a body in a file of its own.

use crate::session::titles::{display_title, session_display_title};
use crate::text::{copy_opt, view_opt};
use vstd::prelude::*;

verus! {

broadcast use vstd::string::group_string_axioms;

/// The body of a conversation.
#[derive(Debug)]
pub enum Body {
    /// There is no file.
    Absent,
    /// There is a file, and it could not be read.
    Unreadable,
    Text(String),
}

/// The contents of a `Body`.
pub enum BodyView {
    Absent,
    Unreadable,
    Text(Seq<char>),
}

impl View for Body {
    type V = BodyView;

    open spec fn view(&self) -> BodyView {
        match self {
            Body::Absent => BodyView::Absent,
            Body::Unreadable => BodyView::Unreadable,
            Body::Text(text) => BodyView::Text(text@),
        }
    }
}

/// A conversation of an account that is not deleted.
#[derive(Debug)]
pub struct StoredSession {
    pub id: Option<String>,
    pub cwd: Option<String>,
    pub title: Option<String>,
    pub custom_title: Option<String>,
    /// In milliseconds.
    pub updated_at: Option<i64>,
    pub body: Body,
}

/// The contents of a `StoredSession`. What the row leaves out is empty or zero.
pub struct StoredView {
    pub id: Seq<char>,
    pub cwd: Seq<char>,
    pub title: Option<Seq<char>>,
    pub custom_title: Option<Seq<char>>,
    pub updated_at: int,
    pub body: BodyView,
}

/// A text, or the empty one.
pub open spec fn or_empty(value: Option<String>) -> Seq<char> {
    match value {
        Some(s) => s@,
        None => Seq::empty(),
    }
}

impl View for StoredSession {
    type V = StoredView;

    open spec fn view(&self) -> StoredView {
        StoredView {
            id: or_empty(self.id),
            cwd: or_empty(self.cwd),
            title: view_opt(self.title),
            custom_title: view_opt(self.custom_title),
            updated_at: match self.updated_at {
                Some(at) => at as int,
                None => 0,
            },
            body: self.body@,
        }
    }
}

/// The contents of a list of conversations.
pub open spec fn stored_views(rows: Seq<StoredSession>) -> Seq<StoredView> {
    Seq::new(rows.len(), |i: int| rows[i]@)
}

/// The name under which a conversation is shown.
pub open spec fn shown_title(s: StoredView) -> Seq<char> {
    display_title(s.title, s.custom_title)
}

/// A copy of a text, or the empty one.
pub(crate) fn copy_or_empty(value: &Option<String>) -> (r: String)
    ensures
        r@ == or_empty(*value),
{
    match value {
        Some(s) => s.clone(),
        None => {
            let empty = String::new();
            assert(empty@ =~= Seq::empty());
            empty
        },
    }
}

impl StoredSession {
    /// The name under which the conversation is shown.
    pub fn display_title(&self) -> (r: String)
        ensures
            r@ == shown_title(self@),
    {
        session_display_title(copy_opt(&self.title), copy_opt(&self.custom_title))
    }

    /// When the conversation was last changed.
    pub fn changed_at(&self) -> (r: i64)
        ensures
            r == self@.updated_at,
    {
        match self.updated_at {
            Some(at) => at,
            None => 0,
        }
    }
}

} // verus!
