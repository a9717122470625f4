use std::cell::Cell;
use std::rc::Rc;

use taskion::client::{NoopNotionClient, NotionClient};
use taskion::error::AppError;
use taskion::models::{Course, NewCourseRequest, SyncState, Todo};
use taskion::repository::Repository;
use taskion::sync::{archive_courses_absent, pull_courses, SyncService};

fn new_course_request(title: &str) -> NewCourseRequest {
    NewCourseRequest {
        title: title.to_string(),
        semester: "Spring".to_string(),
        day_of_week: "Monday".to_string(),
        period: 1,
        room: Some("A101".to_string()),
        instructor: Some("Prof. Smith".to_string()),
    }
}

fn local_course(id: &str, title: &str, state: SyncState, updated_at: &str) -> Course {
    Course {
        id: id.to_string(),
        title: title.to_string(),
        semester: "Spring".to_string(),
        day_of_week: "Monday".to_string(),
        period: 1,
        room: Some("A101".to_string()),
        instructor: Some("Prof. Smith".to_string()),
        is_archived: false,
        updated_at: updated_at.to_string(),
        sync_state: state,
        last_synced_at: None,
    }
}

/// A client that records how many remote calls it receives; the counters
/// are shared so a test can read them after handing the client away.
struct CountingClient {
    pushes: Rc<Cell<usize>>,
    fetches: Rc<Cell<usize>>,
}

impl CountingClient {
    fn new() -> (CountingClient, Rc<Cell<usize>>, Rc<Cell<usize>>) {
        let pushes = Rc::new(Cell::new(0));
        let fetches = Rc::new(Cell::new(0));
        (CountingClient { pushes: pushes.clone(), fetches: fetches.clone() }, pushes, fetches)
    }
}

impl NotionClient for CountingClient {
    fn fetch_courses(&self) -> Result<Vec<Course>, AppError> {
        self.fetches.set(self.fetches.get() + 1);
        Ok(Vec::new())
    }

    fn fetch_todos(&self) -> Result<Vec<Todo>, AppError> {
        self.fetches.set(self.fetches.get() + 1);
        Ok(Vec::new())
    }

    fn push_course(&self, _course: &Course) -> Result<(), AppError> {
        self.pushes.set(self.pushes.get() + 1);
        Ok(())
    }

    fn push_todo(&self, _todo: &Todo) -> Result<(), AppError> {
        self.pushes.set(self.pushes.get() + 1);
        Ok(())
    }
}

// ---------------------------------------------------------------------------
// The original engine scenarios, each against the disabled client.
// ---------------------------------------------------------------------------

#[test]
fn sync_service_test_push_local_pending_course() {
    let mut repo = Repository::new();
    let sync = SyncService::new(NoopNotionClient);
    repo.insert_course(new_course_request("Rust Programming")).expect("Failed to insert course");

    sync.push_local_changes_to_notion(&mut repo).expect("Failed to push");

    let courses = repo.fetch_courses();
    assert_eq!(courses.len(), 1);
    assert_eq!(courses[0].sync_state.as_str(), "synced", "sync_state should be updated to 'synced'");
    assert!(courses[0].last_synced_at.is_some(), "last_synced_at should be set");
}

#[test]
fn sync_service_test_pull_preserves_local_pending_course() {
    let mut repo = Repository::new();
    let sync = SyncService::new(NoopNotionClient);
    repo.upsert_course(&local_course(
        "course-1",
        "Local Course",
        SyncState::Pending,
        "2025-01-01T00:00:00+00:00",
    ));

    sync.sync_courses_from_notion(&mut repo).expect("Failed to sync courses");

    let updated = repo.find_course_by_id("course-1").expect("Course not found");
    assert_eq!(
        updated.sync_state.as_str(),
        "pending",
        "sync_state should remain 'pending' to preserve local changes"
    );
    assert_eq!(updated.title, "Local Course", "Local data should not be overwritten");
}

#[test]
fn sync_service_test_push_skips_already_synced_course() {
    let mut repo = Repository::new();
    let sync = SyncService::new(NoopNotionClient);
    let course = repo
        .insert_course(new_course_request("Rust Programming"))
        .expect("Failed to insert course");

    let now = "2025-01-01T00:00:00+00:00".to_string();
    assert!(repo.mark_course_synced(&course.id, &now));

    sync.push_local_changes_to_notion(&mut repo).expect("Failed to push");

    let after_push = repo.find_course_by_id(&course.id).expect("Course not found");
    assert_eq!(after_push.sync_state.as_str(), "synced", "sync_state should remain 'synced'");
}

#[test]
fn sync_service_test_sync_all_push_then_pull_order() {
    let mut repo = Repository::new();
    let sync = SyncService::new(NoopNotionClient);
    let course = repo
        .insert_course(new_course_request("Initial Title"))
        .expect("Failed to insert course");

    sync.sync_all(&mut repo).expect("Failed to sync");

    let final_state = repo.find_course_by_id(&course.id).expect("Course not found");
    assert_eq!(
        final_state.sync_state.as_str(),
        "synced",
        "After full sync, course should be synced"
    );
}

#[test]
fn sync_service_test_archive_course_not_in_notion() {
    let mut repo = Repository::new();
    let sync = SyncService::new(NoopNotionClient);
    let course = repo
        .insert_course(new_course_request("To Be Archived"))
        .expect("Failed to insert course");

    let now = "2025-01-01T00:00:00+00:00".to_string();
    assert!(repo.mark_course_synced(&course.id, &now));

    sync.sync_courses_from_notion(&mut repo).expect("Failed to sync courses");

    let archived = repo.find_course_by_id(&course.id).expect("Course not found");
    assert_eq!(archived.is_archived, true, "Course not in Notion should be archived");
}

#[test]
fn mod_test_push_local_pending_course() {
    let mut repo = Repository::new();
    let sync = SyncService::new(NoopNotionClient);
    repo.insert_course(new_course_request("Rust Programming")).expect("Failed to insert course");

    sync.push_local_changes_to_notion(&mut repo).expect("Failed to push");

    let courses = repo.fetch_courses();
    assert_eq!(courses.len(), 1);
    assert_eq!(courses[0].sync_state.as_str(), "synced", "sync_state should be updated to 'synced'");
    assert!(courses[0].last_synced_at.is_some(), "last_synced_at should be set");
}

#[test]
fn mod_test_pull_preserves_local_pending_course() {
    let mut repo = Repository::new();
    let sync = SyncService::new(NoopNotionClient);
    repo.upsert_course(&local_course(
        "course-1",
        "Local Course",
        SyncState::Pending,
        "2025-01-01T00:00:00+00:00",
    ));

    sync.sync_courses_from_notion(&mut repo).expect("Failed to sync courses");

    let updated = repo.find_course_by_id("course-1").expect("Course not found");
    assert_eq!(
        updated.sync_state.as_str(),
        "pending",
        "sync_state should remain 'pending' to preserve local changes"
    );
    assert_eq!(updated.title, "Local Course", "Local data should not be overwritten");
}

#[test]
fn mod_test_push_skips_already_synced_course() {
    let mut repo = Repository::new();
    let sync = SyncService::new(NoopNotionClient);
    let course = repo
        .insert_course(new_course_request("Rust Programming"))
        .expect("Failed to insert course");

    let now = "2025-01-01T00:00:00+00:00".to_string();
    assert!(repo.mark_course_synced(&course.id, &now));

    sync.push_local_changes_to_notion(&mut repo).expect("Failed to push");

    let after_push = repo.find_course_by_id(&course.id).expect("Course not found");
    assert_eq!(after_push.sync_state.as_str(), "synced", "sync_state should remain 'synced'");
}

#[test]
fn mod_test_sync_all_push_then_pull_order() {
    let mut repo = Repository::new();
    let sync = SyncService::new(NoopNotionClient);
    let course = repo
        .insert_course(new_course_request("Initial Title"))
        .expect("Failed to insert course");

    sync.sync_all(&mut repo).expect("Failed to sync");

    let final_state = repo.find_course_by_id(&course.id).expect("Course not found");
    assert_eq!(
        final_state.sync_state.as_str(),
        "synced",
        "After full sync, course should be synced"
    );
}

#[test]
fn mod_test_archive_course_not_in_notion() {
    let mut repo = Repository::new();
    let sync = SyncService::new(NoopNotionClient);
    let course = repo
        .insert_course(new_course_request("To Be Archived"))
        .expect("Failed to insert course");

    let now = "2025-01-01T00:00:00+00:00".to_string();
    assert!(repo.mark_course_synced(&course.id, &now));

    sync.sync_courses_from_notion(&mut repo).expect("Failed to sync courses");

    let archived = repo.find_course_by_id(&course.id).expect("Course not found");
    assert_eq!(archived.is_archived, true, "Course not in Notion should be archived");
}

// ---------------------------------------------------------------------------
// The engine's stated properties, on concrete values.
// ---------------------------------------------------------------------------

// Idempotence of push: a record already synced causes no remote call.
#[test]
fn push_is_idempotent_for_synced_records() {
    let mut repo = Repository::new();
    let (client, pushes, _fetches) = CountingClient::new();
    let course = repo.insert_course(new_course_request("Once")).expect("insert");
    let now = "2025-01-01T00:00:00+00:00".to_string();
    assert!(repo.mark_course_synced(&course.id, &now));

    let sync = SyncService::new(client);
    let (pushed_courses, pushed_todos) =
        sync.push_local_changes_to_notion(&mut repo).expect("push");
    assert_eq!(pushed_courses, 0);
    assert_eq!(pushed_todos, 0);
    assert_eq!(pushes.get(), 0, "an already-synced record causes no remote call");

    // Pushing a second time is a no-op as well.
    sync.push_local_changes_to_notion(&mut repo).expect("push");
    assert_eq!(pushes.get(), 0);
}

#[test]
fn push_calls_remote_once_per_pending_record() {
    let mut repo = Repository::new();
    repo.insert_course(new_course_request("One")).expect("insert");
    repo.insert_course(new_course_request("Two")).expect("insert");

    let (client, pushes, _fetches) = CountingClient::new();
    let sync = SyncService::new(client);
    let (pushed_courses, _) = sync.push_local_changes_to_notion(&mut repo).expect("push");
    assert_eq!(pushed_courses, 2);
    assert_eq!(pushes.get(), 2);

    // A second run pushes nothing: every record is synced now.
    let (pushed_again, _) = sync.push_local_changes_to_notion(&mut repo).expect("push");
    assert_eq!(pushed_again, 0);
    assert_eq!(pushes.get(), 2);
}

// Pending precedence: a pull never overwrites a pending local record.
#[test]
fn pull_preserves_pending_record_against_conflicting_remote() {
    let mut repo = Repository::new();
    repo.upsert_course(&local_course(
        "course-1",
        "Local Title",
        SyncState::Pending,
        "2025-01-01T00:00:00+00:00",
    ));
    let remote = vec![local_course(
        "course-1",
        "Remote Title",
        SyncState::Synced,
        "2025-02-01T00:00:00+00:00",
    )];
    let now = "2025-03-01T00:00:00+00:00".to_string();

    let (pulled, skipped) = pull_courses(&mut repo, &remote, &now);
    assert_eq!(pulled, 0);
    assert_eq!(skipped, 1);
    let kept = repo.find_course_by_id("course-1").expect("found");
    assert_eq!(kept.title, "Local Title");
    assert_eq!(kept.sync_state, SyncState::Pending);
}

// Timestamp precedence: a synced local record strictly newer than the
// remote copy is skipped; an older one is overwritten.
#[test]
fn pull_skips_newer_synced_record_and_overwrites_older() {
    let mut repo = Repository::new();
    repo.upsert_course(&local_course(
        "newer",
        "Local Newer",
        SyncState::Synced,
        "2025-05-01T00:00:00+00:00",
    ));
    repo.upsert_course(&local_course(
        "older",
        "Local Older",
        SyncState::Synced,
        "2025-01-01T00:00:00+00:00",
    ));
    let remote = vec![
        local_course("newer", "Remote Stale", SyncState::Synced, "2025-04-01T00:00:00+00:00"),
        local_course("older", "Remote Fresh", SyncState::Synced, "2025-02-01T00:00:00+00:00"),
    ];
    let now = "2025-06-01T00:00:00+00:00".to_string();

    let (pulled, skipped) = pull_courses(&mut repo, &remote, &now);
    assert_eq!(pulled, 1);
    assert_eq!(skipped, 1);
    assert_eq!(repo.find_course_by_id("newer").expect("found").title, "Local Newer");
    let overwritten = repo.find_course_by_id("older").expect("found");
    assert_eq!(overwritten.title, "Remote Fresh");
    assert_eq!(overwritten.sync_state, SyncState::Synced);
    assert_eq!(overwritten.last_synced_at.as_deref(), Some("2025-06-01T00:00:00+00:00"));
}

// An unparsable timestamp never blocks a pull.
#[test]
fn pull_proceeds_when_timestamps_do_not_parse() {
    let mut repo = Repository::new();
    repo.upsert_course(&local_course(
        "course-1",
        "Local",
        SyncState::Synced,
        "not a timestamp",
    ));
    let remote = vec![local_course(
        "course-1",
        "Remote",
        SyncState::Synced,
        "also not a timestamp",
    )];
    let now = "2025-06-01T00:00:00+00:00".to_string();

    let (pulled, skipped) = pull_courses(&mut repo, &remote, &now);
    assert_eq!(pulled, 1);
    assert_eq!(skipped, 0);
    assert_eq!(repo.find_course_by_id("course-1").expect("found").title, "Remote");
}

// Archive on absence: a local record missing from the fetched set ends
// archived; a present one stays untouched.
#[test]
fn reconciliation_archives_absent_records_only() {
    let mut repo = Repository::new();
    repo.upsert_course(&local_course(
        "kept",
        "Kept",
        SyncState::Synced,
        "2025-01-01T00:00:00+00:00",
    ));
    repo.upsert_course(&local_course(
        "gone",
        "Gone",
        SyncState::Synced,
        "2025-01-01T00:00:00+00:00",
    ));
    let remote = vec![local_course(
        "kept",
        "Kept",
        SyncState::Synced,
        "2025-01-01T00:00:00+00:00",
    )];

    archive_courses_absent(&mut repo, &remote);

    assert!(!repo.find_course_by_id("kept").expect("found").is_archived);
    let archived = repo.find_course_by_id("gone").expect("found");
    assert!(archived.is_archived);
    // Reconciliation flips only the flag.
    assert_eq!(archived.sync_state, SyncState::Synced);
    assert_eq!(archived.title, "Gone");
}

// Round trip: create pending, run a full sync against the disabled client,
// end synced with a last-synced time and zero remote side effects.
#[test]
fn round_trip_with_disabled_client() {
    let mut repo = Repository::new();
    let course = repo.insert_course(new_course_request("Round Trip")).expect("insert");
    assert_eq!(course.sync_state, SyncState::Pending);

    let sync = SyncService::new(NoopNotionClient);
    let stats = sync.sync_all(&mut repo).expect("sync");
    assert_eq!(stats.courses_pushed, 1);
    assert_eq!(stats.courses_pulled, 0);
    assert_eq!(stats.courses_skipped, 0);
    assert_eq!(stats.todos_pushed, 0);
    assert_eq!(stats.todos_pulled, 0);
    assert_eq!(stats.todos_skipped, 0);

    let synced = repo.find_course_by_id(&course.id).expect("found");
    assert_eq!(synced.sync_state, SyncState::Synced);
    assert!(synced.last_synced_at.is_some());
}

// A failing push aborts the run but keeps what was already marked.
struct FailingClient;

impl NotionClient for FailingClient {
    fn fetch_courses(&self) -> Result<Vec<Course>, AppError> {
        Err(AppError::InternalServerError)
    }

    fn fetch_todos(&self) -> Result<Vec<Todo>, AppError> {
        Err(AppError::InternalServerError)
    }

    fn push_course(&self, _course: &Course) -> Result<(), AppError> {
        Err(AppError::InternalServerError)
    }

    fn push_todo(&self, _todo: &Todo) -> Result<(), AppError> {
        Err(AppError::InternalServerError)
    }
}

#[test]
fn failing_push_aborts_sync_and_keeps_record_pending() {
    let mut repo = Repository::new();
    let course = repo.insert_course(new_course_request("Unlucky")).expect("insert");

    let sync = SyncService::new(FailingClient);
    let result = sync.sync_all(&mut repo);
    assert!(result.is_err());

    // The record is still pending, so the next run resumes the push.
    let kept = repo.find_course_by_id(&course.id).expect("found");
    assert_eq!(kept.sync_state, SyncState::Pending);
}
