//! What a push writes to the remote service: the property payload built
//! from a local record. The payload always mirrors the local stable id in a
//! dedicated property, so the remote copy carries the local id — never the
//! other way around.

use vstd::prelude::*;

use crate::models::{Course, Todo};
use crate::schema::{DateValue, Property, Relation, RichText, SelectOption};
use crate::text::{
    dec_str, split_comma_space, split_comma_space_spec, trim_ascii, trim_spec, u32_to_string,
};

verus! {

// ---------------------------------------------------------------------------
// What one payload entry holds.
// ---------------------------------------------------------------------------

pub open spec fn entry_is_title(e: (String, Property), key: Seq<char>, text: Seq<char>) -> bool {
    e.0@ == key && match e.1 {
        Property::Title { title } => title@.len() == 1 && title@[0].plain_text@ == text,
        _ => false,
    }
}

pub open spec fn entry_is_rich_text(e: (String, Property), key: Seq<char>, text: Seq<char>) -> bool {
    e.0@ == key && match e.1 {
        Property::RichText { rich_text } => rich_text@.len() == 1 && rich_text@[0].plain_text@
            == text,
        _ => false,
    }
}

pub open spec fn entry_is_select(e: (String, Property), key: Seq<char>, name: Seq<char>) -> bool {
    e.0@ == key && match e.1 {
        Property::Select { select } => select is Some && select->0.name@ == name,
        _ => false,
    }
}

pub open spec fn entry_is_status(e: (String, Property), key: Seq<char>, name: Seq<char>) -> bool {
    e.0@ == key && match e.1 {
        Property::Status { status } => status is Some && status->0.name@ == name,
        _ => false,
    }
}

pub open spec fn entry_is_date_start(e: (String, Property), key: Seq<char>, start: Seq<char>) -> bool {
    e.0@ == key && match e.1 {
        Property::Date { date } => date is Some && date->0.start@ == start && date->0.end is None,
        _ => false,
    }
}

pub open spec fn entry_is_checkbox(e: (String, Property), key: Seq<char>, val: bool) -> bool {
    e.0@ == key && match e.1 {
        Property::Checkbox { checkbox } => checkbox == val,
        _ => false,
    }
}

pub open spec fn entry_is_relation(e: (String, Property), key: Seq<char>, id: Seq<char>) -> bool {
    e.0@ == key && match e.1 {
        Property::Relation { relation } => relation@.len() == 1 && relation@[0].id@ == id,
        _ => false,
    }
}

/// The options are exactly the ", "-separated pieces of the stored string,
/// each trimmed of ASCII whitespace.
pub open spec fn options_are_trimmed_pieces(os: Seq<SelectOption>, pieces: Seq<Seq<char>>) -> bool {
    os.len() == pieces.len() && forall|j: int|
        0 <= j < os.len() ==> os[j].name@ == trim_spec(pieces[j])
}

pub open spec fn entry_is_multi_select_of(
    e: (String, Property),
    key: Seq<char>,
    pieces: Seq<Seq<char>>,
) -> bool {
    e.0@ == key && match e.1 {
        Property::MultiSelect { multi_select } => options_are_trimmed_pieces(
            multi_select@,
            pieces,
        ),
        _ => false,
    }
}

pub open spec fn entry_is_single_multi_select(
    e: (String, Property),
    key: Seq<char>,
    name: Seq<char>,
) -> bool {
    e.0@ == key && match e.1 {
        Property::MultiSelect { multi_select } => multi_select@.len() == 1 && multi_select@[0].name@
            == name,
        _ => false,
    }
}

// ---------------------------------------------------------------------------
// The course payload.
// ---------------------------------------------------------------------------

/// Exactly which properties a course push carries, in order: the title, the
/// semester options, the day (only if non-empty), the period (only if
/// positive), the room and the instructor (only if present), and always the
/// mirrored local id, last.
pub open spec fn course_payload_matches(props: Seq<(String, Property)>, c: Course) -> bool {
    let d = if c.day_of_week@.len() > 0 {
        1int
    } else {
        0int
    };
    let p = if c.period > 0 {
        1int
    } else {
        0int
    };
    let ro = if c.room is Some {
        1int
    } else {
        0int
    };
    let ins = if c.instructor is Some {
        1int
    } else {
        0int
    };
    &&& props.len() == 3 + d + p + ro + ins
    &&& entry_is_title(props[0], "Name"@, c.title@)
    &&& entry_is_multi_select_of(props[1], "Semester"@, split_comma_space_spec(c.semester@))
    &&& (c.day_of_week@.len() > 0 ==> entry_is_select(props[2], "Day"@, c.day_of_week@))
    &&& (c.period > 0 ==> entry_is_single_multi_select(
        props[2 + d],
        "Period"@,
        dec_str(c.period as int),
    ))
    &&& (c.room is Some ==> entry_is_rich_text(props[2 + d + p], "Room"@, c.room->0@))
    &&& (c.instructor is Some ==> entry_is_multi_select_of(
        props[2 + d + p + ro],
        "Instructor"@,
        split_comma_space_spec(c.instructor->0@),
    ))
    &&& entry_is_rich_text(props[2 + d + p + ro + ins], "course_id"@, c.id@)
}

fn single_run(text: &String) -> (r: Vec<RichText>)
    ensures
        r@.len() == 1,
        r@[0].plain_text@ == text@,
{
    let mut runs: Vec<RichText> = Vec::new();
    runs.push(RichText { plain_text: text.clone() });
    runs
}

fn trimmed_options(s: &String) -> (r: Vec<SelectOption>)
    ensures
        options_are_trimmed_pieces(r@, split_comma_space_spec(s@)),
{
    let pieces = split_comma_space(s.as_str());
    let n = pieces.len();
    let mut os: Vec<SelectOption> = Vec::new();
    let mut k: usize = 0;
    while k < n
        invariant
            n == pieces@.len(),
            n == split_comma_space_spec(s@).len(),
            forall|j: int| 0 <= j < n ==> pieces@[j]@ == split_comma_space_spec(s@)[j],
            k <= n,
            os@.len() == k,
            forall|j: int| 0 <= j < k ==> os@[j].name@ == trim_spec(split_comma_space_spec(s@)[j]),
        decreases n - k,
    {
        os.push(SelectOption { name: trim_ascii(pieces[k].as_str()) });
        k += 1;
    }
    os
}

/// Build the property payload of one course push.
pub fn course_push_properties(c: &Course) -> (r: Vec<(String, Property)>)
    ensures
        course_payload_matches(r@, *c),
{
    let mut props: Vec<(String, Property)> = Vec::new();
    props.push(("Name".to_owned(), Property::Title { title: single_run(&c.title) }));
    props.push(
        ("Semester".to_owned(), Property::MultiSelect { multi_select: trimmed_options(&c.semester) }),
    );
    if !c.day_of_week.as_str().is_empty() {
        props.push(
            (
                "Day".to_owned(),
                Property::Select { select: Some(SelectOption { name: c.day_of_week.clone() }) },
            ),
        );
    }
    if c.period > 0 {
        let mut opts: Vec<SelectOption> = Vec::new();
        opts.push(SelectOption { name: u32_to_string(c.period as u32) });
        props.push(("Period".to_owned(), Property::MultiSelect { multi_select: opts }));
    }
    match &c.room {
        Some(room) => {
            props.push(("Room".to_owned(), Property::RichText { rich_text: single_run(room) }));
        },
        None => {},
    }
    match &c.instructor {
        Some(instructor) => {
            props.push(
                (
                    "Instructor".to_owned(),
                    Property::MultiSelect { multi_select: trimmed_options(instructor) },
                ),
            );
        },
        None => {},
    }
    props.push(("course_id".to_owned(), Property::RichText { rich_text: single_run(&c.id) }));
    proof {
        assert(course_payload_matches(props@, *c));
    }
    props
}

// ---------------------------------------------------------------------------
// The task payload.
// ---------------------------------------------------------------------------

/// Exactly which properties a task push carries, in order: title, due date,
/// status, the archived checkbox, and always the mirrored local id, last.
pub open spec fn todo_payload_matches(props: Seq<(String, Property)>, t: Todo) -> bool {
    &&& props.len() == 5
    &&& entry_is_title(props[0], "Title"@, t.title@)
    &&& entry_is_date_start(props[1], "Due Date"@, t.due_date@)
    &&& entry_is_status(props[2], "Status"@, t.status@)
    &&& entry_is_checkbox(props[3], "is_archived"@, t.is_archived)
    &&& entry_is_rich_text(props[4], "todo_id"@, t.id@)
}

/// Creating a remote task additionally links it to its course.
pub open spec fn todo_create_payload_matches(props: Seq<(String, Property)>, t: Todo) -> bool {
    &&& props.len() == 6
    &&& todo_payload_matches(props.take(5), t)
    &&& entry_is_relation(props[5], "Course"@, t.course_id@)
}

/// Build the property payload of one task update push.
pub fn todo_push_properties(t: &Todo) -> (r: Vec<(String, Property)>)
    ensures
        todo_payload_matches(r@, *t),
{
    let mut props: Vec<(String, Property)> = Vec::new();
    props.push(("Title".to_owned(), Property::Title { title: single_run(&t.title) }));
    props.push(
        (
            "Due Date".to_owned(),
            Property::Date { date: Some(DateValue { start: t.due_date.clone(), end: None }) },
        ),
    );
    props.push(
        ("Status".to_owned(), Property::Status { status: Some(SelectOption { name: t.status.clone() }) }),
    );
    props.push(("is_archived".to_owned(), Property::Checkbox { checkbox: t.is_archived }));
    props.push(("todo_id".to_owned(), Property::RichText { rich_text: single_run(&t.id) }));
    props
}

/// Build the property payload of one task creation, with the course link.
pub fn todo_create_properties(t: &Todo) -> (r: Vec<(String, Property)>)
    ensures
        todo_create_payload_matches(r@, *t),
{
    let mut props = todo_push_properties(t);
    let mut links: Vec<Relation> = Vec::new();
    links.push(Relation { id: t.course_id.clone() });
    props.push(("Course".to_owned(), Property::Relation { relation: links }));
    proof {
        assert(props@.take(5) =~= props@.subrange(0, 5));
    }
    props
}

} // verus!
