//! The two entity kinds of the tracker, structurally identical in sync
//! semantics, together with the per-record sync bookkeeping tag.

use vstd::prelude::*;

verus! {

/// Per-record tag tracking whether local edits have been confirmed pushed.
///
/// `Pending` means the local copy has unconfirmed changes not yet reflected
/// remotely; `Synced` means the local state matches what was last pushed or
/// pulled.
#[derive(Clone, Copy, Debug, PartialEq, Eq, Structural)]
pub enum SyncState {
    Pending,
    Synced,
}

impl SyncState {
    /// The tag's stable textual form, as the local store records it.
    pub fn as_str(&self) -> (r: &'static str)
        ensures
            *self == SyncState::Pending ==> r@ == "pending"@,
            *self == SyncState::Synced ==> r@ == "synced"@,
    {
        match self {
            SyncState::Pending => "pending",
            SyncState::Synced => "synced",
        }
    }
}

/// A course record, keyed by a stable string id shared with the remote copy.
#[derive(Clone, Debug)]
pub struct Course {
    pub id: String,
    pub title: String,
    pub semester: String,
    pub day_of_week: String,
    pub period: i32,
    pub room: Option<String>,
    pub instructor: Option<String>,
    pub is_archived: bool,
    pub updated_at: String,
    pub sync_state: SyncState,
    pub last_synced_at: Option<String>,
}

/// The fields a caller supplies to create a course; the repository generates
/// the id and the bookkeeping fields.
#[derive(Clone, Debug)]
pub struct NewCourseRequest {
    pub title: String,
    pub semester: String,
    pub day_of_week: String,
    pub period: i32,
    pub room: Option<String>,
    pub instructor: Option<String>,
}

/// A task record, keyed by a stable string id shared with the remote copy.
/// `course_id` is a foreign reference the core does not enforce.
#[derive(Clone, Debug)]
pub struct Todo {
    pub id: String,
    pub course_id: String,
    pub title: String,
    pub due_date: String,
    pub status: String,
    pub completed_at: Option<String>,
    pub is_archived: bool,
    pub updated_at: String,
    pub sync_state: SyncState,
    pub last_synced_at: Option<String>,
}

/// The fields a caller supplies to create a task.
#[derive(Clone, Debug)]
pub struct NewTodoRequest {
    pub course_id: String,
    pub title: String,
    pub due_date: String,
    pub status: String,
}

/// A partial update: only the supplied fields are merged into the record.
#[derive(Clone, Debug)]
pub struct UpdateTodoRequest {
    pub title: Option<String>,
    pub due_date: Option<String>,
    pub status: Option<String>,
}

} // verus!
