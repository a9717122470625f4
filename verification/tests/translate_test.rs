use taskion::client::NotionConfig;
use taskion::error::AppError;
use taskion::models::SyncState;
use taskion::payload::{course_push_properties, todo_create_properties, todo_push_properties};
use taskion::scheduler::{SchedulerPhase, SyncScheduler, DEFAULT_SYNC_INTERVAL_SECS};
use taskion::schema::{DateValue, Page, Property, Relation, RichText, SelectOption};
use taskion::translate::{
    course_from_page, courses_from_pages, get_property_text, todo_from_page, todos_from_pages,
};

fn text_prop(value: &str) -> Property {
    Property::RichText { rich_text: vec![RichText { plain_text: value.to_string() }] }
}

fn title_prop(value: &str) -> Property {
    Property::Title { title: vec![RichText { plain_text: value.to_string() }] }
}

fn course_page(id: &str, title: Option<&str>) -> Page {
    let mut properties: Vec<(String, Property)> = Vec::new();
    if let Some(t) = title {
        properties.push(("Name".to_string(), title_prop(t)));
    }
    properties.push((
        "Semester".to_string(),
        Property::MultiSelect {
            multi_select: vec![
                SelectOption { name: "Spring".to_string() },
                SelectOption { name: "Summer".to_string() },
            ],
        },
    ));
    properties.push((
        "Day".to_string(),
        Property::Select { select: Some(SelectOption { name: "Monday".to_string() }) },
    ));
    properties.push((
        "Period".to_string(),
        Property::MultiSelect { multi_select: vec![SelectOption { name: "3".to_string() }] },
    ));
    properties.push(("Room".to_string(), text_prop("A101")));
    // An unknown property type must be tolerated and ignored.
    properties.push(("Mystery".to_string(), Property::Unknown));
    Page {
        id: id.to_string(),
        properties,
        created_time: "2025-01-01T00:00:00.000Z".to_string(),
        last_edited_time: "2025-02-01T00:00:00.000Z".to_string(),
        archived: false,
    }
}

#[test]
fn course_translation_extracts_each_field() {
    let page = course_page("page-1", Some("Algebra"));
    let now = "2025-03-01T00:00:00+00:00".to_string();
    let course = course_from_page(&page, &now).expect("parse");
    assert_eq!(course.id, "page-1");
    assert_eq!(course.title, "Algebra");
    assert_eq!(course.semester, "Spring, Summer");
    assert_eq!(course.day_of_week, "Monday");
    assert_eq!(course.period, 3);
    assert_eq!(course.room.as_deref(), Some("A101"));
    assert!(course.instructor.is_none());
    assert!(!course.is_archived);
    assert_eq!(course.updated_at, "2025-02-01T00:00:00.000Z");
    assert_eq!(course.sync_state, SyncState::Synced);
    assert_eq!(course.last_synced_at.as_deref(), Some("2025-03-01T00:00:00+00:00"));
}

#[test]
fn course_translation_defaults_missing_optional_fields() {
    let page = Page {
        id: "bare".to_string(),
        properties: vec![("Name".to_string(), title_prop("Bare"))],
        created_time: "2025-01-01T00:00:00.000Z".to_string(),
        last_edited_time: "2025-01-02T00:00:00.000Z".to_string(),
        archived: true,
    };
    let now = "2025-03-01T00:00:00+00:00".to_string();
    let course = course_from_page(&page, &now).expect("parse");
    assert_eq!(course.semester, "");
    assert_eq!(course.day_of_week, "");
    assert_eq!(course.period, 0);
    assert!(course.room.is_none());
    assert!(course.instructor.is_none());
    assert!(course.is_archived);
}

#[test]
fn course_translation_fails_only_on_missing_title() {
    let page = course_page("page-1", None);
    let now = "2025-03-01T00:00:00+00:00".to_string();
    let err = course_from_page(&page, &now).expect_err("must fail");
    match err {
        AppError::BadRequest(msg) => assert_eq!(msg, "Missing property: Name"),
        other => panic!("unexpected error: {:?}", other),
    }
}

// Resilience to a single bad record: the batch keeps all others.
#[test]
fn batch_translation_drops_only_the_bad_record() {
    let pages = vec![
        course_page("good-1", Some("First")),
        course_page("bad", None),
        course_page("good-2", Some("Second")),
    ];
    let now = "2025-03-01T00:00:00+00:00".to_string();
    let courses = courses_from_pages(&pages, &now);
    assert_eq!(courses.len(), 2);
    assert_eq!(courses[0].id, "good-1");
    assert_eq!(courses[0].title, "First");
    assert_eq!(courses[1].id, "good-2");
    assert_eq!(courses[1].title, "Second");
}

#[test]
fn todo_translation_extracts_and_defaults() {
    let full = Page {
        id: "todo-page".to_string(),
        properties: vec![
            ("Title".to_string(), title_prop("Homework")),
            ("todo_id".to_string(), text_prop("todo-77")),
            (
                "Due Date".to_string(),
                Property::Date {
                    date: Some(DateValue { start: "2026-01-10".to_string(), end: None }),
                },
            ),
            (
                "Status".to_string(),
                Property::Status { status: Some(SelectOption { name: "Doing".to_string() }) },
            ),
            (
                "Course".to_string(),
                Property::Relation { relation: vec![Relation { id: "course-9".to_string() }] },
            ),
            ("is_archived".to_string(), Property::Checkbox { checkbox: true }),
        ],
        created_time: "2025-01-01T00:00:00.000Z".to_string(),
        last_edited_time: "2025-01-02T00:00:00.000Z".to_string(),
        archived: false,
    };
    let now = "2025-03-01T00:00:00+00:00".to_string();
    let today = "2025-03-01".to_string();
    let todo = todo_from_page(&full, &now, &today).expect("parse");
    assert_eq!(todo.id, "todo-77");
    assert_eq!(todo.title, "Homework");
    assert_eq!(todo.due_date, "2026-01-10");
    assert_eq!(todo.status, "Doing");
    assert_eq!(todo.course_id, "course-9");
    assert!(todo.is_archived, "the checkbox overrides the page's archived flag");
    assert_eq!(todo.sync_state, SyncState::Synced);

    let bare = Page {
        id: "bare-todo".to_string(),
        properties: vec![("Title".to_string(), title_prop("Bare"))],
        created_time: "2025-01-01T00:00:00.000Z".to_string(),
        last_edited_time: "2025-01-02T00:00:00.000Z".to_string(),
        archived: true,
    };
    let todo = todo_from_page(&bare, &now, &today).expect("parse");
    assert_eq!(todo.id, "bare-todo", "falls back to the page id");
    assert_eq!(todo.due_date, "2025-03-01", "falls back to today");
    assert_eq!(todo.status, "未着手", "falls back to the not-started label");
    assert_eq!(todo.course_id, "");
    assert!(todo.is_archived, "falls back to the page's archived flag");
}

#[test]
fn todo_batch_translation_keeps_good_records() {
    let good = Page {
        id: "t1".to_string(),
        properties: vec![("Title".to_string(), title_prop("Keep me"))],
        created_time: "2025-01-01T00:00:00.000Z".to_string(),
        last_edited_time: "2025-01-02T00:00:00.000Z".to_string(),
        archived: false,
    };
    let bad = Page {
        id: "t2".to_string(),
        properties: vec![],
        created_time: "2025-01-01T00:00:00.000Z".to_string(),
        last_edited_time: "2025-01-02T00:00:00.000Z".to_string(),
        archived: false,
    };
    let now = "2025-03-01T00:00:00+00:00".to_string();
    let today = "2025-03-01".to_string();
    let todos = todos_from_pages(&vec![bad, good], &now, &today);
    assert_eq!(todos.len(), 1);
    assert_eq!(todos[0].title, "Keep me");
}

#[test]
fn text_property_reads_title_and_rich_text() {
    let page = course_page("p", Some("T"));
    assert_eq!(get_property_text(&page, "Name").expect("title"), "T");
    assert_eq!(get_property_text(&page, "Room").expect("rich text"), "A101");
    match get_property_text(&page, "Mystery").expect_err("unknown type") {
        AppError::BadRequest(msg) => assert_eq!(msg, "Missing property: Mystery"),
        other => panic!("unexpected error: {:?}", other),
    }
}

// ---------------------------------------------------------------------------
// Push payloads.
// ---------------------------------------------------------------------------

#[test]
fn course_payload_mirrors_the_local_id_and_splits_options() {
    let course = taskion::models::Course {
        id: "course-5".to_string(),
        title: "Algebra".to_string(),
        semester: "Spring, Summer".to_string(),
        day_of_week: "Monday".to_string(),
        period: 12,
        room: Some("A101".to_string()),
        instructor: Some("Ann, Bob".to_string()),
        is_archived: false,
        updated_at: "2025-01-01T00:00:00+00:00".to_string(),
        sync_state: SyncState::Pending,
        last_synced_at: None,
    };
    let props = course_push_properties(&course);
    assert_eq!(props.len(), 7);
    assert_eq!(props[0].0, "Name");
    match &props[0].1 {
        Property::Title { title } => {
            assert_eq!(title.len(), 1);
            assert_eq!(title[0].plain_text, "Algebra");
        },
        other => panic!("unexpected property: {:?}", other),
    }
    match &props[1].1 {
        Property::MultiSelect { multi_select } => {
            assert_eq!(multi_select.len(), 2);
            assert_eq!(multi_select[0].name, "Spring");
            assert_eq!(multi_select[1].name, "Summer");
        },
        other => panic!("unexpected property: {:?}", other),
    }
    assert_eq!(props[2].0, "Day");
    assert_eq!(props[3].0, "Period");
    match &props[3].1 {
        Property::MultiSelect { multi_select } => {
            assert_eq!(multi_select.len(), 1);
            assert_eq!(multi_select[0].name, "12");
        },
        other => panic!("unexpected property: {:?}", other),
    }
    assert_eq!(props[4].0, "Room");
    assert_eq!(props[5].0, "Instructor");
    // The payload always mirrors the local stable id, last.
    assert_eq!(props[6].0, "course_id");
    match &props[6].1 {
        Property::RichText { rich_text } => assert_eq!(rich_text[0].plain_text, "course-5"),
        other => panic!("unexpected property: {:?}", other),
    }
}

#[test]
fn course_payload_omits_absent_optional_properties() {
    let course = taskion::models::Course {
        id: "course-6".to_string(),
        title: "Bare".to_string(),
        semester: "".to_string(),
        day_of_week: "".to_string(),
        period: 0,
        room: None,
        instructor: None,
        is_archived: false,
        updated_at: "2025-01-01T00:00:00+00:00".to_string(),
        sync_state: SyncState::Pending,
        last_synced_at: None,
    };
    let props = course_push_properties(&course);
    assert_eq!(props.len(), 3);
    assert_eq!(props[0].0, "Name");
    assert_eq!(props[1].0, "Semester");
    match &props[1].1 {
        Property::MultiSelect { multi_select } => {
            // "".split(", ") yields one empty piece, as the remote schema saw.
            assert_eq!(multi_select.len(), 1);
            assert_eq!(multi_select[0].name, "");
        },
        other => panic!("unexpected property: {:?}", other),
    }
    assert_eq!(props[2].0, "course_id");
}

#[test]
fn todo_payload_carries_all_five_properties_and_relation_on_create() {
    let todo = taskion::models::Todo {
        id: "todo-1".to_string(),
        course_id: "course-1".to_string(),
        title: "Homework".to_string(),
        due_date: "2026-01-10".to_string(),
        status: "未着手".to_string(),
        completed_at: None,
        is_archived: true,
        updated_at: "2025-01-01T00:00:00+00:00".to_string(),
        sync_state: SyncState::Pending,
        last_synced_at: None,
    };
    let props = todo_push_properties(&todo);
    assert_eq!(props.len(), 5);
    assert_eq!(props[0].0, "Title");
    assert_eq!(props[1].0, "Due Date");
    match &props[1].1 {
        Property::Date { date } => {
            let d = date.as_ref().expect("date set");
            assert_eq!(d.start, "2026-01-10");
            assert!(d.end.is_none());
        },
        other => panic!("unexpected property: {:?}", other),
    }
    assert_eq!(props[2].0, "Status");
    assert_eq!(props[3].0, "is_archived");
    match &props[3].1 {
        Property::Checkbox { checkbox } => assert!(*checkbox),
        other => panic!("unexpected property: {:?}", other),
    }
    assert_eq!(props[4].0, "todo_id");

    let create = todo_create_properties(&todo);
    assert_eq!(create.len(), 6);
    assert_eq!(create[5].0, "Course");
    match &create[5].1 {
        Property::Relation { relation } => {
            assert_eq!(relation.len(), 1);
            assert_eq!(relation[0].id, "course-1");
        },
        other => panic!("unexpected property: {:?}", other),
    }
}

// ---------------------------------------------------------------------------
// Configuration and errors.
// ---------------------------------------------------------------------------

#[test]
fn config_requires_all_three_values() {
    let ok = NotionConfig::from_values(
        Some("token-123".to_string()),
        Some("db-courses".to_string()),
        Some("db-todos".to_string()),
    )
    .expect("config");
    assert_eq!(ok.courses_db_id, "db-courses");
    assert_eq!(ok.todos_db_id, "db-todos");

    match NotionConfig::from_values(None, Some("a".to_string()), Some("b".to_string())) {
        Err(AppError::BadRequest(msg)) => assert_eq!(msg, "NOTION_TOKEN is not set"),
        other => panic!("unexpected: {:?}", other),
    }
    match NotionConfig::from_values(Some("t".to_string()), None, Some("b".to_string())) {
        Err(AppError::BadRequest(msg)) => assert_eq!(msg, "COURSES_DB_ID is not set"),
        other => panic!("unexpected: {:?}", other),
    }
    match NotionConfig::from_values(Some("t".to_string()), Some("a".to_string()), None) {
        Err(AppError::BadRequest(msg)) => assert_eq!(msg, "TODOS_DB_ID is not set"),
        other => panic!("unexpected: {:?}", other),
    }
}

#[test]
fn error_responses_carry_status_and_message() {
    assert_eq!(AppError::NotFound.status_code(), 404);
    assert_eq!(AppError::BadRequest("x".to_string()).status_code(), 400);
    assert_eq!(AppError::Conflict("x".to_string()).status_code(), 409);
    assert_eq!(AppError::InternalServerError.status_code(), 500);

    let r = AppError::NotFound.to_response();
    assert_eq!(r.error, "404 Not Found");
    assert_eq!(r.message, "Not Found");
    let r = AppError::BadRequest("broken field".to_string()).to_response();
    assert_eq!(r.error, "400 Bad Request");
    assert_eq!(r.message, "broken field");
    let r = AppError::InternalServerError.to_response();
    assert_eq!(r.error, "500 Internal Server Error");
    assert_eq!(r.message, "Internal server error");
}

// ---------------------------------------------------------------------------
// The scheduler's state machine.
// ---------------------------------------------------------------------------

#[test]
fn test_scheduler_initialization() {
    let scheduler = SyncScheduler::new(10);
    assert_eq!(scheduler.interval_secs(), 10);
    assert_eq!(scheduler.phase(), SchedulerPhase::Waiting);
    assert_eq!(scheduler.runs_completed(), 0);
    assert_eq!(DEFAULT_SYNC_INTERVAL_SECS, 300);
}

#[test]
fn test_scheduler_short_interval() {
    let mut scheduler = SyncScheduler::new(1);
    // First tick starts a run; a tick during the run starts no second one.
    assert!(scheduler.interval_elapsed());
    assert_eq!(scheduler.phase(), SchedulerPhase::Running);
    assert!(!scheduler.interval_elapsed());

    // A failure is swallowed: the loop simply waits for the next tick.
    scheduler.sync_finished(false);
    assert_eq!(scheduler.phase(), SchedulerPhase::Waiting);
    assert_eq!(scheduler.runs_failed(), 1);

    assert!(scheduler.interval_elapsed());
    scheduler.sync_finished(true);
    assert_eq!(scheduler.phase(), SchedulerPhase::Waiting);
    assert_eq!(scheduler.runs_completed(), 1);
}
