//! A personal task/course tracker core: a synchronization engine that keeps a
//! local authoritative store consistent with a remote page/property record
//! service, together with the local repository, the remote-schema translation
//! rules, and the scheduler state machine that drives periodic runs.

pub mod client;
pub mod error;
mod ids;
pub mod models;
pub mod payload;
pub mod repository;
pub mod scheduler;
pub mod schema;
pub mod sync;
pub mod translate;
pub mod text;
pub mod time;
