//! The remote-service capability: a client that can fetch whole collections
//! and push single records. Two variants exist — a live HTTP adapter
//! (implemented outside the core, against this interface) and the disabled
//! no-op client used when the remote credentials are absent.

use vstd::prelude::*;

use crate::error::AppError;
use crate::models::{Course, Todo};

verus! {

/// What the sync engine needs from the remote service.
///
/// Nothing is promised of the results: a fetch may return any batch and a
/// push may fail at any time, so the engine's own contracts state what holds
/// of the store whatever comes back.
pub trait NotionClient {
    /// All remote course records, translated into the domain model.
    fn fetch_courses(&self) -> Result<Vec<Course>, AppError>;

    /// All remote task records, translated into the domain model.
    fn fetch_todos(&self) -> Result<Vec<Todo>, AppError>;

    /// Write one local course record's current value to the remote service.
    fn push_course(&self, course: &Course) -> Result<(), AppError>;

    /// Write one local task record's current value to the remote service.
    fn push_todo(&self, todo: &Todo) -> Result<(), AppError>;
}

/// The disabled client: fetches return the empty batch and pushes succeed
/// without side effects, so the rest of the system runs local-only without
/// special-casing.
pub struct NoopNotionClient;

impl NotionClient for NoopNotionClient {
    /// Always the empty batch: local-only mode sees no remote records.
    fn fetch_courses(&self) -> (r: Result<Vec<Course>, AppError>)
        ensures
            r is Ok && r->Ok_0@ == Seq::<Course>::empty(),
    {
        Ok(Vec::new())
    }

    /// Always the empty batch.
    fn fetch_todos(&self) -> (r: Result<Vec<Todo>, AppError>)
        ensures
            r is Ok && r->Ok_0@ == Seq::<Todo>::empty(),
    {
        Ok(Vec::new())
    }

    /// Always succeeds, with no remote side effect.
    fn push_course(&self, _course: &Course) -> (r: Result<(), AppError>)
        ensures
            r is Ok,
    {
        Ok(())
    }

    /// Always succeeds, with no remote side effect.
    fn push_todo(&self, _todo: &Todo) -> (r: Result<(), AppError>)
        ensures
            r is Ok,
    {
        Ok(())
    }
}

/// The remote credential and the two collection identifiers. Absence of any
/// of them means the disabled client is substituted at startup.
#[derive(Clone, Debug)]
pub struct NotionConfig {
    pub api_token: String,
    pub courses_db_id: String,
    pub todos_db_id: String,
}

impl NotionConfig {
    /// Assemble the configuration from optionally-present values (as read
    /// from the process environment by the caller). Succeeds exactly when
    /// all three are present; the error names the first missing one.
    pub fn from_values(
        api_token: Option<String>,
        courses_db_id: Option<String>,
        todos_db_id: Option<String>,
    ) -> (r: Result<NotionConfig, AppError>)
        ensures
            match r {
                Ok(c) => {
                    &&& api_token == Some(c.api_token)
                    &&& courses_db_id == Some(c.courses_db_id)
                    &&& todos_db_id == Some(c.todos_db_id)
                },
                Err(e) => {
                    &&& (api_token is None || courses_db_id is None || todos_db_id is None)
                    &&& e is BadRequest
                    &&& (api_token is None ==> e->BadRequest_0@ == "NOTION_TOKEN is not set"@)
                    &&& (api_token is Some && courses_db_id is None ==> e->BadRequest_0@
                        == "COURSES_DB_ID is not set"@)
                    &&& (api_token is Some && courses_db_id is Some && todos_db_id is None
                        ==> e->BadRequest_0@ == "TODOS_DB_ID is not set"@)
                },
            },
    {
        let api_token = match api_token {
            Some(t) => t,
            None => {
                return Err(AppError::BadRequest("NOTION_TOKEN is not set".to_owned()));
            },
        };
        let courses_db_id = match courses_db_id {
            Some(c) => c,
            None => {
                return Err(AppError::BadRequest("COURSES_DB_ID is not set".to_owned()));
            },
        };
        let todos_db_id = match todos_db_id {
            Some(t) => t,
            None => {
                return Err(AppError::BadRequest("TODOS_DB_ID is not set".to_owned()));
            },
        };
        Ok(NotionConfig { api_token, courses_db_id, todos_db_id })
    }
}

} // verus!
