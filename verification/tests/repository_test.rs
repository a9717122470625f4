use taskion::error::AppError;
use taskion::models::{NewCourseRequest, NewTodoRequest, SyncState, UpdateTodoRequest};
use taskion::repository::Repository;

fn insert_math_course(repo: &mut Repository) -> taskion::models::Course {
    let req = NewCourseRequest {
        title: "数学I".to_string(),
        semester: "2A2".to_string(),
        day_of_week: "Mon".to_string(),
        period: 1,
        room: Some("101".to_string()),
        instructor: Some("田中先生".to_string()),
    };
    repo.insert_course(req).expect("Failed to insert course")
}

#[test]
fn test_insert_and_fetch_course() {
    let mut repo = Repository::new();
    let course = insert_math_course(&mut repo);
    assert_eq!(course.title, "数学I");
    assert_eq!(course.semester, "2A2");
    assert_eq!(course.day_of_week, "Mon");
    assert_eq!(course.room.as_deref(), Some("101"));
    assert_eq!(course.instructor.as_deref(), Some("田中先生"));

    let courses = repo.fetch_courses();
    assert_eq!(courses.len(), 1);
    assert_eq!(courses[0].title, "数学I");
    assert_eq!(courses[0].sync_state.as_str(), "pending");
    assert_eq!(courses[0].id.len(), 36);
    assert!(courses[0].last_synced_at.is_none());
}

#[test]
fn test_insert_and_fetch_todo() {
    let mut repo = Repository::new();
    let course = insert_math_course(&mut repo);

    let req = NewTodoRequest {
        course_id: course.id.clone(),
        title: "宿題1".to_string(),
        due_date: "2026-01-10".to_string(),
        status: "未着手".to_string(),
    };
    let todo = repo.insert_todo(req).expect("Failed to insert todo");
    assert_eq!(todo.title, "宿題1");
    assert_eq!(todo.due_date, "2026-01-10");
    assert_eq!(todo.status, "未着手");
    assert_eq!(todo.course_id, course.id);

    let todos = repo.fetch_todos();
    assert_eq!(todos.len(), 1);
    assert_eq!(todos[0].title, "宿題1");
    assert_eq!(todos[0].sync_state.as_str(), "pending");
    assert!(todos[0].completed_at.is_none());
}

#[test]
fn test_update_todo() {
    let mut repo = Repository::new();
    let course = insert_math_course(&mut repo);
    let todo = repo
        .insert_todo(NewTodoRequest {
            course_id: course.id.clone(),
            title: "宿題1".to_string(),
            due_date: "2026-01-10".to_string(),
            status: "未着手".to_string(),
        })
        .expect("Failed to insert todo");

    // Mark it synced first, so the update provably resets the state.
    let now = "2026-01-01T00:00:00+00:00".to_string();
    assert!(repo.mark_todo_synced(&todo.id, &now));

    let updated = repo
        .update_todo(
            &todo.id,
            UpdateTodoRequest {
                title: Some("宿題1修正".to_string()),
                due_date: None,
                status: None,
            },
        )
        .expect("Todo not found");
    assert_eq!(updated.title, "宿題1修正");
    assert_eq!(updated.due_date, "2026-01-10");
    assert_eq!(updated.status, "未着手");
    assert_eq!(updated.sync_state, SyncState::Pending);

    // An unknown id updates nothing.
    let missing = repo.update_todo(
        "no-such-id",
        UpdateTodoRequest { title: None, due_date: None, status: None },
    );
    assert!(missing.is_none());
}

#[test]
fn test_archive_todo() {
    let mut repo = Repository::new();
    let course = insert_math_course(&mut repo);
    let todo = repo
        .insert_todo(NewTodoRequest {
            course_id: course.id.clone(),
            title: "宿題1".to_string(),
            due_date: "2026-01-10".to_string(),
            status: "未着手".to_string(),
        })
        .expect("Failed to insert todo");

    assert!(repo.archive_todo(&todo.id));

    let todos = repo.fetch_todos();
    assert_eq!(todos.len(), 0);

    let all = repo.fetch_all_todos();
    assert_eq!(all.len(), 1);
    assert!(all[0].is_archived);
    assert_eq!(all[0].sync_state, SyncState::Pending);

    assert!(!repo.archive_todo("no-such-id"));
}

#[test]
fn test_unarchive_todo_restores_record() {
    let mut repo = Repository::new();
    let course = insert_math_course(&mut repo);
    let todo = repo
        .insert_todo(NewTodoRequest {
            course_id: course.id.clone(),
            title: "宿題1".to_string(),
            due_date: "2026-01-10".to_string(),
            status: "未着手".to_string(),
        })
        .expect("Failed to insert todo");

    assert!(repo.archive_todo(&todo.id));
    assert!(repo.unarchive_todo(&todo.id));
    let todos = repo.fetch_todos();
    assert_eq!(todos.len(), 1);
    assert!(!todos[0].is_archived);
}

#[test]
fn test_fetch_pending_todos_filters_on_sync_state() {
    let mut repo = Repository::new();
    let course = insert_math_course(&mut repo);
    let first = repo
        .insert_todo(NewTodoRequest {
            course_id: course.id.clone(),
            title: "a".to_string(),
            due_date: "2026-01-10".to_string(),
            status: "未着手".to_string(),
        })
        .expect("insert");
    let second = repo
        .insert_todo(NewTodoRequest {
            course_id: course.id.clone(),
            title: "b".to_string(),
            due_date: "2026-01-11".to_string(),
            status: "未着手".to_string(),
        })
        .expect("insert");

    let now = "2026-01-01T00:00:00+00:00".to_string();
    assert!(repo.mark_todo_synced(&first.id, &now));

    let pending = repo.fetch_pending_todos();
    assert_eq!(pending.len(), 1);
    assert_eq!(pending[0].id, second.id);
}

#[test]
fn test_fetch_courses_orders_by_updated_at_descending() {
    let mut repo = Repository::new();
    let mut older = insert_math_course(&mut repo);
    older.updated_at = "2024-01-01T00:00:00+00:00".to_string();
    let older_id = older.id.clone();
    repo.upsert_course(&older);

    let mut newer = insert_math_course(&mut repo);
    newer.updated_at = "2025-06-01T00:00:00+00:00".to_string();
    let newer_id = newer.id.clone();
    repo.upsert_course(&newer);

    let mut middle = insert_math_course(&mut repo);
    middle.updated_at = "2024-12-31T23:59:59+00:00".to_string();
    let middle_id = middle.id.clone();
    repo.upsert_course(&middle);

    let courses = repo.fetch_courses();
    assert_eq!(courses.len(), 3);
    assert_eq!(courses[0].id, newer_id);
    assert_eq!(courses[1].id, middle_id);
    assert_eq!(courses[2].id, older_id);
}

#[test]
fn test_find_course_by_id() {
    let mut repo = Repository::new();
    let course = insert_math_course(&mut repo);
    let found = repo.find_course_by_id(&course.id).expect("Course not found");
    assert_eq!(found.title, course.title);
    assert!(repo.find_course_by_id("no-such-id").is_none());
}

#[test]
fn test_upsert_course_keeps_sync_state_as_given() {
    let mut repo = Repository::new();
    let mut course = insert_math_course(&mut repo);
    course.title = "数学II".to_string();
    course.sync_state = SyncState::Synced;
    course.last_synced_at = Some("2026-01-01T00:00:00+00:00".to_string());
    repo.upsert_course(&course);

    let stored = repo.find_course_by_id(&course.id).expect("Course not found");
    assert_eq!(stored.title, "数学II");
    assert_eq!(stored.sync_state, SyncState::Synced);

    // The upsert replaced rather than duplicated the record.
    assert_eq!(repo.fetch_courses().len(), 1);
}

#[test]
fn test_insert_with_id_succeeds_exactly_when_id_is_free() {
    let mut repo = Repository::new();
    let req = NewCourseRequest {
        title: "数学I".to_string(),
        semester: "2A2".to_string(),
        day_of_week: "Mon".to_string(),
        period: 1,
        room: None,
        instructor: None,
    };
    let created = repo
        .insert_course_with_id(req.clone(), "course-1".to_string(), "2026-01-01T00:00:00+00:00".to_string())
        .expect("free id");
    assert_eq!(created.id, "course-1");
    assert_eq!(created.updated_at, "2026-01-01T00:00:00+00:00");

    match repo.insert_course_with_id(req, "course-1".to_string(), "2026-01-02T00:00:00+00:00".to_string()) {
        Err(AppError::Conflict(msg)) => assert_eq!(msg, "course id already exists"),
        other => panic!("expected a conflict, got {:?}", other),
    }
    assert_eq!(repo.fetch_courses().len(), 1);

    let todo_req = NewTodoRequest {
        course_id: "course-1".to_string(),
        title: "宿題1".to_string(),
        due_date: "2026-01-10".to_string(),
        status: "未着手".to_string(),
    };
    let created = repo
        .insert_todo_with_id(todo_req.clone(), "todo-1".to_string(), "2026-01-01T00:00:00+00:00".to_string())
        .expect("free id");
    assert_eq!(created.id, "todo-1");
    match repo.insert_todo_with_id(todo_req, "todo-1".to_string(), "2026-01-02T00:00:00+00:00".to_string()) {
        Err(AppError::Conflict(msg)) => assert_eq!(msg, "todo id already exists"),
        other => panic!("expected a conflict, got {:?}", other),
    }
}
