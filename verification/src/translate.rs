//! Translation between the remote schema and the domain model: extracting
//! typed values from a page's properties, and turning pages into records.
//! A record that lacks a required field fails alone; a fetch never fails as
//! a whole on one bad record.

use vstd::prelude::*;
use vstd::string::StringExecFns;

use crate::error::AppError;
use crate::models::{Course, SyncState, Todo};
use crate::schema::{Page, Property, RichText, SelectOption};
use crate::text::{parse_i32, spec_parse_i32, str_eq};

verus! {

// ---------------------------------------------------------------------------
// Property lookup by name: the first pair carrying the key.
// ---------------------------------------------------------------------------

pub open spec fn prop_index(props: Seq<(String, Property)>, key: Seq<char>) -> int
    decreases props.len(),
{
    if props.len() == 0 {
        -1
    } else if props[0].0@ == key {
        0
    } else {
        let r = prop_index(props.drop_first(), key);
        if r < 0 {
            -1
        } else {
            r + 1
        }
    }
}

pub open spec fn lookup_prop(props: Seq<(String, Property)>, key: Seq<char>) -> Option<Property> {
    if prop_index(props, key) >= 0 {
        Some(props[prop_index(props, key)].1)
    } else {
        None
    }
}

proof fn lemma_prop_index(props: Seq<(String, Property)>, key: Seq<char>)
    ensures
        -1 <= prop_index(props, key) < props.len(),
        prop_index(props, key) >= 0 ==> props[prop_index(props, key)].0@ == key,
        forall|j: int| 0 <= j < prop_index(props, key) ==> props[j].0@ != key,
        prop_index(props, key) == -1 ==> forall|j: int|
            0 <= j < props.len() ==> props[j].0@ != key,
    decreases props.len(),
{
    if props.len() == 0 {
    } else if props[0].0@ == key {
    } else {
        lemma_prop_index(props.drop_first(), key);
        assert forall|j: int| 1 <= j < props.len() implies props[j] == props.drop_first()[j
            - 1] by {}
    }
}

fn find_prop<'a>(props: &'a Vec<(String, Property)>, key: &str) -> (r: Option<&'a Property>)
    ensures
        match r {
            Some(p) => lookup_prop(props@, key@) == Some(*p),
            None => lookup_prop(props@, key@) is None,
        },
{
    let n = props.len();
    let mut k: usize = 0;
    while k < n
        invariant
            n == props@.len(),
            k <= n,
            forall|j: int| 0 <= j < k ==> props@[j].0@ != key@,
        decreases n - k,
    {
        if str_eq(props[k].0.as_str(), key) {
            proof {
                lemma_prop_index(props@, key@);
            }
            return Some(&props[k].1);
        }
        k += 1;
    }
    proof {
        lemma_prop_index(props@, key@);
    }
    None
}

// ---------------------------------------------------------------------------
// Joining text runs and option names.
// ---------------------------------------------------------------------------

/// All the plain-text runs of a title or rich-text property, concatenated.
pub open spec fn joined_plain_text(ts: Seq<RichText>) -> Seq<char>
    decreases ts.len(),
{
    if ts.len() == 0 {
        Seq::empty()
    } else {
        joined_plain_text(ts.drop_last()) + ts.last().plain_text@
    }
}

/// The option names joined with a separator, as `join` would produce.
pub open spec fn joined_names(os: Seq<SelectOption>, sep: Seq<char>) -> Seq<char>
    decreases os.len(),
{
    if os.len() == 0 {
        Seq::empty()
    } else if os.len() == 1 {
        os[0].name@
    } else {
        joined_names(os.drop_last(), sep) + sep + os.last().name@
    }
}

fn join_plain_texts(ts: &Vec<RichText>) -> (r: String)
    ensures
        r@ == joined_plain_text(ts@),
{
    let mut s = String::new();
    let n = ts.len();
    let mut k: usize = 0;
    proof {
        assert(s@ =~= joined_plain_text(ts@.take(0)));
    }
    while k < n
        invariant
            n == ts@.len(),
            k <= n,
            s@ == joined_plain_text(ts@.take(k as int)),
        decreases n - k,
    {
        proof {
            assert(ts@.take((k + 1) as int).drop_last() =~= ts@.take(k as int));
            assert(ts@.take((k + 1) as int).last() == ts@[k as int]);
        }
        s.append(ts[k].plain_text.as_str());
        k += 1;
    }
    proof {
        assert(ts@.take(n as int) =~= ts@);
    }
    s
}

fn join_select_names(os: &Vec<SelectOption>, sep: &str) -> (r: String)
    ensures
        r@ == joined_names(os@, sep@),
{
    let mut s = String::new();
    let n = os.len();
    let mut k: usize = 0;
    proof {
        assert(s@ =~= joined_names(os@.take(0), sep@));
    }
    while k < n
        invariant
            n == os@.len(),
            k <= n,
            s@ == joined_names(os@.take(k as int), sep@),
        decreases n - k,
    {
        proof {
            assert(os@.take((k + 1) as int).drop_last() =~= os@.take(k as int));
            assert(os@.take((k + 1) as int).last() == os@[k as int]);
        }
        if k > 0 {
            s.append(sep);
        }
        s.append(os[k].name.as_str());
        k += 1;
    }
    proof {
        assert(os@.take(n as int) =~= os@);
    }
    s
}

// ---------------------------------------------------------------------------
// Typed extraction from a page's properties.
// ---------------------------------------------------------------------------

/// The text of a title or rich-text property: its runs joined.
pub open spec fn spec_text_prop(props: Seq<(String, Property)>, key: Seq<char>) -> Option<
    Seq<char>,
> {
    match lookup_prop(props, key) {
        Some(Property::Title { title }) => Some(joined_plain_text(title@)),
        Some(Property::RichText { rich_text }) => Some(joined_plain_text(rich_text@)),
        _ => None,
    }
}

/// The start date of a date property.
pub open spec fn spec_date_prop(props: Seq<(String, Property)>, key: Seq<char>) -> Option<
    Seq<char>,
> {
    match lookup_prop(props, key) {
        Some(Property::Date { date }) => match date {
            Some(d) => Some(d.start@),
            None => None,
        },
        _ => None,
    }
}

/// The id of the first related record of a relation property.
pub open spec fn spec_relation_prop(props: Seq<(String, Property)>, key: Seq<char>) -> Option<
    Seq<char>,
> {
    match lookup_prop(props, key) {
        Some(Property::Relation { relation }) => if relation@.len() > 0 {
            Some(relation@[0].id@)
        } else {
            None
        },
        _ => None,
    }
}

/// The selected option's name of a select property.
pub open spec fn spec_select_prop(props: Seq<(String, Property)>, key: Seq<char>) -> Option<
    Seq<char>,
> {
    match lookup_prop(props, key) {
        Some(Property::Select { select }) => match select {
            Some(o) => Some(o.name@),
            None => None,
        },
        _ => None,
    }
}

/// The current option's name of a status property.
pub open spec fn spec_status_prop(props: Seq<(String, Property)>, key: Seq<char>) -> Option<
    Seq<char>,
> {
    match lookup_prop(props, key) {
        Some(Property::Status { status }) => match status {
            Some(o) => Some(o.name@),
            None => None,
        },
        _ => None,
    }
}

/// The options of a multi-select property.
pub open spec fn spec_multi_select_prop(props: Seq<(String, Property)>, key: Seq<char>) -> Option<
    Seq<SelectOption>,
> {
    match lookup_prop(props, key) {
        Some(Property::MultiSelect { multi_select }) => Some(multi_select@),
        _ => None,
    }
}

/// The value of a checkbox property.
pub open spec fn spec_checkbox_prop(props: Seq<(String, Property)>, key: Seq<char>) -> Option<
    bool,
> {
    match lookup_prop(props, key) {
        Some(Property::Checkbox { checkbox }) => Some(checkbox),
        _ => None,
    }
}

fn missing_error(prefix: &str, key: &str) -> (r: AppError)
    ensures
        r is BadRequest,
        r->BadRequest_0@ == prefix@ + key@,
{
    let mut m = String::new();
    m.append(prefix);
    m.append(key);
    proof {
        assert(m@ =~= prefix@ + key@);
    }
    AppError::BadRequest(m)
}

/// The text of a required title or rich-text property; a "missing property"
/// error, scoped to this record, if the property is absent or not textual.
pub fn get_property_text(page: &Page, key: &str) -> (r: Result<String, AppError>)
    ensures
        match r {
            Ok(s) => spec_text_prop(page.properties@, key@) == Some(s@),
            Err(e) => {
                &&& spec_text_prop(page.properties@, key@) is None
                &&& e is BadRequest
                &&& e->BadRequest_0@ == "Missing property: "@ + key@
            },
        },
{
    match find_prop(&page.properties, key) {
        Some(p) => match p {
            Property::Title { title } => Ok(join_plain_texts(title)),
            Property::RichText { rich_text } => Ok(join_plain_texts(rich_text)),
            _ => Err(missing_error("Missing property: ", key)),
        },
        None => Err(missing_error("Missing property: ", key)),
    }
}

/// The start date of a required date property.
pub fn get_property_date(page: &Page, key: &str) -> (r: Result<String, AppError>)
    ensures
        match r {
            Ok(s) => spec_date_prop(page.properties@, key@) == Some(s@),
            Err(e) => {
                &&& spec_date_prop(page.properties@, key@) is None
                &&& e is BadRequest
                &&& e->BadRequest_0@ == "Missing date property: "@ + key@
            },
        },
{
    match find_prop(&page.properties, key) {
        Some(p) => match p {
            Property::Date { date: Some(d) } => Ok(d.start.clone()),
            _ => Err(missing_error("Missing date property: ", key)),
        },
        None => Err(missing_error("Missing date property: ", key)),
    }
}

/// The first related record's id of a required relation property.
pub fn get_property_relation(page: &Page, key: &str) -> (r: Result<String, AppError>)
    ensures
        match r {
            Ok(s) => spec_relation_prop(page.properties@, key@) == Some(s@),
            Err(e) => {
                &&& spec_relation_prop(page.properties@, key@) is None
                &&& e is BadRequest
                &&& e->BadRequest_0@ == "Missing relation property: "@ + key@
            },
        },
{
    match find_prop(&page.properties, key) {
        Some(p) => match p {
            Property::Relation { relation } => {
                if relation.len() > 0 {
                    Ok(relation[0].id.clone())
                } else {
                    Err(missing_error("Missing relation property: ", key))
                }
            },
            _ => Err(missing_error("Missing relation property: ", key)),
        },
        None => Err(missing_error("Missing relation property: ", key)),
    }
}

/// The selected option's name of a required select property.
pub fn get_property_select(page: &Page, key: &str) -> (r: Result<String, AppError>)
    ensures
        match r {
            Ok(s) => spec_select_prop(page.properties@, key@) == Some(s@),
            Err(e) => {
                &&& spec_select_prop(page.properties@, key@) is None
                &&& e is BadRequest
                &&& e->BadRequest_0@ == "Missing select property: "@ + key@
            },
        },
{
    match find_prop(&page.properties, key) {
        Some(p) => match p {
            Property::Select { select: Some(o) } => Ok(o.name.clone()),
            _ => Err(missing_error("Missing select property: ", key)),
        },
        None => Err(missing_error("Missing select property: ", key)),
    }
}

/// The current option's name of a required status property.
pub fn get_property_status(page: &Page, key: &str) -> (r: Result<String, AppError>)
    ensures
        match r {
            Ok(s) => spec_status_prop(page.properties@, key@) == Some(s@),
            Err(e) => {
                &&& spec_status_prop(page.properties@, key@) is None
                &&& e is BadRequest
                &&& e->BadRequest_0@ == "Missing status property: "@ + key@
            },
        },
{
    match find_prop(&page.properties, key) {
        Some(p) => match p {
            Property::Status { status: Some(o) } => Ok(o.name.clone()),
            _ => Err(missing_error("Missing status property: ", key)),
        },
        None => Err(missing_error("Missing status property: ", key)),
    }
}

/// The option names of a required multi-select property.
pub fn get_property_multi_select(page: &Page, key: &str) -> (r: Result<Vec<String>, AppError>)
    ensures
        match r {
            Ok(v) => {
                &&& spec_multi_select_prop(page.properties@, key@) is Some
                &&& v@.len() == spec_multi_select_prop(page.properties@, key@)->0.len()
                &&& forall|j: int|
                    0 <= j < v@.len() ==> v@[j]@ == spec_multi_select_prop(
                        page.properties@,
                        key@,
                    )->0[j].name@
            },
            Err(e) => {
                &&& spec_multi_select_prop(page.properties@, key@) is None
                &&& e is BadRequest
                &&& e->BadRequest_0@ == "Missing multi_select property: "@ + key@
            },
        },
{
    match find_prop(&page.properties, key) {
        Some(p) => match p {
            Property::MultiSelect { multi_select } => {
                let n = multi_select.len();
                let mut names: Vec<String> = Vec::new();
                let mut k: usize = 0;
                while k < n
                    invariant
                        n == multi_select@.len(),
                        k <= n,
                        names@.len() == k,
                        forall|j: int| 0 <= j < k ==> names@[j]@ == multi_select@[j].name@,
                    decreases n - k,
                {
                    names.push(multi_select[k].name.clone());
                    k += 1;
                }
                Ok(names)
            },
            _ => Err(missing_error("Missing multi_select property: ", key)),
        },
        None => Err(missing_error("Missing multi_select property: ", key)),
    }
}

fn get_property_checkbox(page: &Page, key: &str) -> (r: Option<bool>)
    ensures
        r == spec_checkbox_prop(page.properties@, key@),
{
    match find_prop(&page.properties, key) {
        Some(p) => match p {
            Property::Checkbox { checkbox } => Some(*checkbox),
            _ => None,
        },
        None => None,
    }
}


// ---------------------------------------------------------------------------
// Turning one page into one record.
// ---------------------------------------------------------------------------

/// A course page is translatable exactly when its required title property
/// ("Name") is present and textual; every other field has a default.
pub open spec fn course_page_parseable(p: Page) -> bool {
    spec_text_prop(p.properties@, "Name"@) is Some
}

/// The period is the first "Period" option parsed as an integer; anything
/// missing or unparsable defaults to zero.
pub open spec fn spec_period_of(p: Page) -> i32 {
    match spec_multi_select_prop(p.properties@, "Period"@) {
        Some(os) => if os.len() > 0 {
            match spec_parse_i32(os[0].name@) {
                Some(v) => v,
                None => 0,
            }
        } else {
            0
        },
        None => 0,
    }
}

/// Exactly which course a page translates to, field by field: required
/// title, defaulted semester/day/period/room/instructor, the page's own
/// archived flag and last-edited time, stamped synced as of `now`.
pub open spec fn course_matches_page(c: Course, p: Page, now: String) -> bool {
    &&& c.id@ == p.id@
    &&& spec_text_prop(p.properties@, "Name"@) == Some(c.title@)
    &&& c.semester@ == (match spec_multi_select_prop(p.properties@, "Semester"@) {
        Some(os) => joined_names(os, ", "@),
        None => Seq::<char>::empty(),
    })
    &&& c.day_of_week@ == (match spec_select_prop(p.properties@, "Day"@) {
        Some(n) => n,
        None => Seq::<char>::empty(),
    })
    &&& c.period == spec_period_of(p)
    &&& (match spec_text_prop(p.properties@, "Room"@) {
        Some(t) => c.room is Some && c.room->0@ == t,
        None => c.room is None,
    })
    &&& (match spec_multi_select_prop(p.properties@, "Instructor"@) {
        Some(os) => c.instructor is Some && c.instructor->0@ == joined_names(os, ", "@),
        None => c.instructor is None,
    })
    &&& c.is_archived == p.archived
    &&& c.updated_at@ == p.last_edited_time@
    &&& c.sync_state == SyncState::Synced
    &&& c.last_synced_at == Some(now)
}

/// Translate one remote page into a course, stamped synced as of `now`.
/// Fails, for this record alone, exactly when the required title is absent.
pub fn course_from_page(page: &Page, now: &String) -> (r: Result<Course, AppError>)
    ensures
        match r {
            Ok(c) => course_matches_page(c, *page, *now),
            Err(e) => e is BadRequest,
        },
        (r is Ok) == course_page_parseable(*page),
{
    let title = match get_property_text(page, "Name") {
        Ok(t) => t,
        Err(e) => {
            return Err(e);
        },
    };
    let semester = match find_prop(&page.properties, "Semester") {
        Some(p) => match p {
            Property::MultiSelect { multi_select } => join_select_names(multi_select, ", "),
            _ => String::new(),
        },
        None => String::new(),
    };
    let day_of_week = match get_property_select(page, "Day") {
        Ok(d) => d,
        Err(_) => String::new(),
    };
    let period: i32 = match get_property_multi_select(page, "Period") {
        Ok(items) => if items.len() > 0 {
            match parse_i32(items[0].as_str()) {
                Some(v) => v,
                None => 0,
            }
        } else {
            0
        },
        Err(_) => 0,
    };
    let room = match get_property_text(page, "Room") {
        Ok(t) => Some(t),
        Err(_) => None,
    };
    let instructor = match find_prop(&page.properties, "Instructor") {
        Some(p) => match p {
            Property::MultiSelect { multi_select } => Some(join_select_names(multi_select, ", ")),
            _ => None,
        },
        None => None,
    };
    Ok(
        Course {
            id: page.id.clone(),
            title,
            semester,
            day_of_week,
            period,
            room,
            instructor,
            is_archived: page.archived,
            updated_at: page.last_edited_time.clone(),
            sync_state: SyncState::Synced,
            last_synced_at: Some(now.clone()),
        },
    )
}

/// A task page is translatable exactly when its required "Title" property is
/// present and textual.
pub open spec fn todo_page_parseable(p: Page) -> bool {
    spec_text_prop(p.properties@, "Title"@) is Some
}

/// Exactly which task a page translates to: the mirrored stable id (or the
/// page id), required title, due date defaulted to `today`, status defaulted
/// to the fixed not-started label, first course relation, archived taken
/// from the checkbox if present, stamped synced as of `now`.
pub open spec fn todo_matches_page(t: Todo, p: Page, now: String, today: String) -> bool {
    &&& t.id@ == (match spec_text_prop(p.properties@, "todo_id"@) {
        Some(s) => s,
        None => p.id@,
    })
    &&& spec_text_prop(p.properties@, "Title"@) == Some(t.title@)
    &&& t.due_date@ == (match spec_date_prop(p.properties@, "Due Date"@) {
        Some(d) => d,
        None => today@,
    })
    &&& t.status@ == (match spec_status_prop(p.properties@, "Status"@) {
        Some(s) => s,
        None => "未着手"@,
    })
    &&& t.course_id@ == (match spec_relation_prop(p.properties@, "Course"@) {
        Some(s) => s,
        None => Seq::<char>::empty(),
    })
    &&& (match spec_date_prop(p.properties@, "completed_at"@) {
        Some(d) => t.completed_at is Some && t.completed_at->0@ == d,
        None => t.completed_at is None,
    })
    &&& t.is_archived == (match spec_checkbox_prop(p.properties@, "is_archived"@) {
        Some(b) => b,
        None => p.archived,
    })
    &&& t.updated_at@ == p.last_edited_time@
    &&& t.sync_state == SyncState::Synced
    &&& t.last_synced_at == Some(now)
}

/// Translate one remote page into a task, stamped synced as of `now`; an
/// absent due date defaults to `today`, the caller's current local date.
/// Fails, for this record alone, exactly when the required title is absent.
pub fn todo_from_page(page: &Page, now: &String, today: &String) -> (r: Result<Todo, AppError>)
    ensures
        match r {
            Ok(t) => todo_matches_page(t, *page, *now, *today),
            Err(e) => e is BadRequest,
        },
        (r is Ok) == todo_page_parseable(*page),
{
    let title = match get_property_text(page, "Title") {
        Ok(t) => t,
        Err(e) => {
            return Err(e);
        },
    };
    let id = match get_property_text(page, "todo_id") {
        Ok(s) => s,
        Err(_) => page.id.clone(),
    };
    let due_date = match get_property_date(page, "Due Date") {
        Ok(d) => d,
        Err(_) => today.clone(),
    };
    let status = match get_property_status(page, "Status") {
        Ok(s) => s,
        Err(_) => "未着手".to_owned(),
    };
    let course_id = match get_property_relation(page, "Course") {
        Ok(s) => s,
        Err(_) => String::new(),
    };
    let completed_at = match get_property_date(page, "completed_at") {
        Ok(d) => Some(d),
        Err(_) => None,
    };
    let is_archived = match get_property_checkbox(page, "is_archived") {
        Some(b) => b,
        None => page.archived,
    };
    Ok(
        Todo {
            id,
            course_id,
            title,
            due_date,
            status,
            completed_at,
            is_archived,
            updated_at: page.last_edited_time.clone(),
            sync_state: SyncState::Synced,
            last_synced_at: Some(now.clone()),
        },
    )
}


// ---------------------------------------------------------------------------
// Translating a whole fetched batch: one bad record never fails the rest.
// ---------------------------------------------------------------------------

/// The indices of the pages a course fetch keeps: exactly the translatable
/// ones, in order.
pub open spec fn course_page_keeps(pages: Seq<Page>) -> Seq<int>
    decreases pages.len(),
{
    if pages.len() == 0 {
        Seq::empty()
    } else {
        let pre = course_page_keeps(pages.drop_last());
        if course_page_parseable(pages.last()) {
            pre.push(pages.len() - 1)
        } else {
            pre
        }
    }
}

pub open spec fn todo_page_keeps(pages: Seq<Page>) -> Seq<int>
    decreases pages.len(),
{
    if pages.len() == 0 {
        Seq::empty()
    } else {
        let pre = todo_page_keeps(pages.drop_last());
        if todo_page_parseable(pages.last()) {
            pre.push(pages.len() - 1)
        } else {
            pre
        }
    }
}

/// How many pages of the batch are translatable.
pub open spec fn course_parseable_count(pages: Seq<Page>) -> int
    decreases pages.len(),
{
    if pages.len() == 0 {
        0
    } else {
        course_parseable_count(pages.drop_last()) + if course_page_parseable(pages.last()) {
            1int
        } else {
            0int
        }
    }
}

pub open spec fn todo_parseable_count(pages: Seq<Page>) -> int
    decreases pages.len(),
{
    if pages.len() == 0 {
        0
    } else {
        todo_parseable_count(pages.drop_last()) + if todo_page_parseable(pages.last()) {
            1int
        } else {
            0int
        }
    }
}

/// The fetch keeps one record per translatable page: its yield is the batch
/// size less the number of untranslatable pages.
pub proof fn lemma_course_keeps_len_is_parseable_count(pages: Seq<Page>)
    ensures
        course_page_keeps(pages).len() == course_parseable_count(pages),
    decreases pages.len(),
{
    if pages.len() > 0 {
        lemma_course_keeps_len_is_parseable_count(pages.drop_last());
    }
}

pub proof fn lemma_todo_keeps_len_is_parseable_count(pages: Seq<Page>)
    ensures
        todo_page_keeps(pages).len() == todo_parseable_count(pages),
    decreases pages.len(),
{
    if pages.len() > 0 {
        lemma_todo_keeps_len_is_parseable_count(pages.drop_last());
    }
}

/// The kept indices are exactly the translatable pages: every translatable
/// page is kept, and no untranslatable one is.
pub proof fn lemma_course_page_keeps(pages: Seq<Page>)
    ensures
        ({
            let ks = course_page_keeps(pages);
            &&& ks.len() <= pages.len()
            &&& forall|j: int|
                0 <= j < ks.len() ==> 0 <= ks[j] < pages.len() && course_page_parseable(
                    pages[ks[j]],
                )
            &&& forall|m: int|
                0 <= m < pages.len() && course_page_parseable(pages[m]) ==> ks.contains(m)
            &&& forall|m: int|
                0 <= m < pages.len() && !course_page_parseable(pages[m]) ==> !ks.contains(m)
        }),
    decreases pages.len(),
{
    if pages.len() > 0 {
        let prev = pages.drop_last();
        lemma_course_page_keeps(prev);
        let pre = course_page_keeps(prev);
        let ks = course_page_keeps(pages);
        assert(forall|m: int| 0 <= m < prev.len() ==> prev[m] == pages[m]);
        assert forall|j: int|
            0 <= j < ks.len() implies 0 <= ks[j] < pages.len() && course_page_parseable(
            pages[ks[j]],
        ) by {
            if j < pre.len() {
                assert(ks[j] == pre[j]);
                assert(course_page_parseable(prev[pre[j]]));
            } else {
                assert(ks[j] == pages.len() - 1);
            }
        }
        assert forall|m: int|
            0 <= m < pages.len() && course_page_parseable(pages[m]) implies ks.contains(m) by {
            if m == pages.len() - 1 {
                assert(ks[ks.len() - 1] == m);
            } else {
                assert(pre.contains(m));
                let j = choose|j: int| 0 <= j < pre.len() && pre[j] == m;
                assert(ks[j] == m);
            }
        }
        assert forall|m: int|
            0 <= m < pages.len() && !course_page_parseable(pages[m]) implies !ks.contains(m) by {
            if ks.contains(m) {
                let j = choose|j: int| 0 <= j < ks.len() && ks[j] == m;
                assert(course_page_parseable(pages[ks[j]]));
            }
        }
    }
}

pub proof fn lemma_todo_page_keeps(pages: Seq<Page>)
    ensures
        ({
            let ks = todo_page_keeps(pages);
            &&& ks.len() <= pages.len()
            &&& forall|j: int|
                0 <= j < ks.len() ==> 0 <= ks[j] < pages.len() && todo_page_parseable(
                    pages[ks[j]],
                )
            &&& forall|m: int|
                0 <= m < pages.len() && todo_page_parseable(pages[m]) ==> ks.contains(m)
            &&& forall|m: int|
                0 <= m < pages.len() && !todo_page_parseable(pages[m]) ==> !ks.contains(m)
        }),
    decreases pages.len(),
{
    if pages.len() > 0 {
        let prev = pages.drop_last();
        lemma_todo_page_keeps(prev);
        let pre = todo_page_keeps(prev);
        let ks = todo_page_keeps(pages);
        assert(forall|m: int| 0 <= m < prev.len() ==> prev[m] == pages[m]);
        assert forall|j: int|
            0 <= j < ks.len() implies 0 <= ks[j] < pages.len() && todo_page_parseable(
            pages[ks[j]],
        ) by {
            if j < pre.len() {
                assert(ks[j] == pre[j]);
                assert(todo_page_parseable(prev[pre[j]]));
            } else {
                assert(ks[j] == pages.len() - 1);
            }
        }
        assert forall|m: int|
            0 <= m < pages.len() && todo_page_parseable(pages[m]) implies ks.contains(m) by {
            if m == pages.len() - 1 {
                assert(ks[ks.len() - 1] == m);
            } else {
                assert(pre.contains(m));
                let j = choose|j: int| 0 <= j < pre.len() && pre[j] == m;
                assert(ks[j] == m);
            }
        }
        assert forall|m: int|
            0 <= m < pages.len() && !todo_page_parseable(pages[m]) implies !ks.contains(m) by {
            if ks.contains(m) {
                let j = choose|j: int| 0 <= j < ks.len() && ks[j] == m;
                assert(todo_page_parseable(pages[ks[j]]));
            }
        }
    }
}

/// Translate a fetched batch of course pages. Every translatable page yields
/// its record, in order; an untranslatable record is dropped alone, and the
/// call as a whole never fails.
pub fn courses_from_pages(pages: &Vec<Page>, now: &String) -> (r: Vec<Course>)
    ensures
        r@.len() == course_page_keeps(pages@).len(),
        r@.len() == course_parseable_count(pages@),
        forall|j: int|
            0 <= j < r@.len() ==> course_matches_page(
                r@[j],
                pages@[course_page_keeps(pages@)[j]],
                *now,
            ),
        forall|m: int|
            0 <= m < pages@.len() && course_page_parseable(pages@[m]) ==> course_page_keeps(
                pages@,
            ).contains(m),
{
    let mut out: Vec<Course> = Vec::new();
    let n = pages.len();
    let mut k: usize = 0;
    while k < n
        invariant
            n == pages@.len(),
            k <= n,
            out@.len() == course_page_keeps(pages@.take(k as int)).len(),
            forall|j: int|
                0 <= j < out@.len() ==> 0 <= #[trigger] course_page_keeps(
                    pages@.take(k as int),
                )[j] < k && course_matches_page(
                    out@[j],
                    pages@[course_page_keeps(pages@.take(k as int))[j]],
                    *now,
                ),
        decreases n - k,
    {
        proof {
            assert(pages@.take((k + 1) as int).drop_last() =~= pages@.take(k as int));
            assert(pages@.take((k + 1) as int).last() == pages@[k as int]);
        }
        match course_from_page(&pages[k], now) {
            Ok(c) => {
                out.push(c);
            },
            Err(_) => {},
        }
        proof {
            assert forall|j: int|
                0 <= j < out@.len() implies 0 <= course_page_keeps(pages@.take((k + 1) as int))[j]
                < k + 1 && course_matches_page(
                out@[j],
                pages@[course_page_keeps(pages@.take((k + 1) as int))[j]],
                *now,
            ) by {
                if j < course_page_keeps(pages@.take(k as int)).len() {
                    assert(course_page_keeps(pages@.take((k + 1) as int))[j] == course_page_keeps(
                        pages@.take(k as int),
                    )[j]);
                    assert(0 <= course_page_keeps(pages@.take(k as int))[j] < k);
                } else {
                    assert(course_page_keeps(pages@.take((k + 1) as int))[j] == k as int);
                }
            }
        }
        k += 1;
    }
    proof {
        assert(pages@.take(n as int) =~= pages@);
        lemma_course_page_keeps(pages@);
        lemma_course_keeps_len_is_parseable_count(pages@);
    }
    out
}

/// Translate a fetched batch of task pages; same resilience as for courses.
pub fn todos_from_pages(pages: &Vec<Page>, now: &String, today: &String) -> (r: Vec<Todo>)
    ensures
        r@.len() == todo_page_keeps(pages@).len(),
        r@.len() == todo_parseable_count(pages@),
        forall|j: int|
            0 <= j < r@.len() ==> todo_matches_page(
                r@[j],
                pages@[todo_page_keeps(pages@)[j]],
                *now,
                *today,
            ),
        forall|m: int|
            0 <= m < pages@.len() && todo_page_parseable(pages@[m]) ==> todo_page_keeps(
                pages@,
            ).contains(m),
{
    let mut out: Vec<Todo> = Vec::new();
    let n = pages.len();
    let mut k: usize = 0;
    while k < n
        invariant
            n == pages@.len(),
            k <= n,
            out@.len() == todo_page_keeps(pages@.take(k as int)).len(),
            forall|j: int|
                0 <= j < out@.len() ==> 0 <= #[trigger] todo_page_keeps(
                    pages@.take(k as int),
                )[j] < k && todo_matches_page(
                    out@[j],
                    pages@[todo_page_keeps(pages@.take(k as int))[j]],
                    *now,
                    *today,
                ),
        decreases n - k,
    {
        proof {
            assert(pages@.take((k + 1) as int).drop_last() =~= pages@.take(k as int));
            assert(pages@.take((k + 1) as int).last() == pages@[k as int]);
        }
        match todo_from_page(&pages[k], now, today) {
            Ok(t) => {
                out.push(t);
            },
            Err(_) => {},
        }
        proof {
            assert forall|j: int|
                0 <= j < out@.len() implies 0 <= todo_page_keeps(pages@.take((k + 1) as int))[j]
                < k + 1 && todo_matches_page(
                out@[j],
                pages@[todo_page_keeps(pages@.take((k + 1) as int))[j]],
                *now, *today,
            ) by {
                if j < todo_page_keeps(pages@.take(k as int)).len() {
                    assert(todo_page_keeps(pages@.take((k + 1) as int))[j] == todo_page_keeps(
                        pages@.take(k as int),
                    )[j]);
                    assert(0 <= todo_page_keeps(pages@.take(k as int))[j] < k);
                } else {
                    assert(todo_page_keeps(pages@.take((k + 1) as int))[j] == k as int);
                }
            }
        }
        k += 1;
    }
    proof {
        assert(pages@.take(n as int) =~= pages@);
        lemma_todo_page_keeps(pages@);
        lemma_todo_keeps_len_is_parseable_count(pages@);
    }
    out
}


/// Resilience to a single bad record: translating a batch never fails as a
/// whole — every translatable page is kept, and only untranslatable pages
/// are dropped.
pub proof fn lemma_fetch_keeps_every_parseable_course(pages: Seq<Page>, m: int)
    requires
        0 <= m < pages.len(),
    ensures
        course_page_parseable(pages[m]) ==> course_page_keeps(pages).contains(m),
        !course_page_parseable(pages[m]) ==> !course_page_keeps(pages).contains(m),
{
    lemma_course_page_keeps(pages);
}

pub proof fn lemma_fetch_keeps_every_parseable_todo(pages: Seq<Page>, m: int)
    requires
        0 <= m < pages.len(),
    ensures
        todo_page_parseable(pages[m]) ==> todo_page_keeps(pages).contains(m),
        !todo_page_parseable(pages[m]) ==> !todo_page_keeps(pages).contains(m),
{
    lemma_todo_page_keeps(pages);
}

} // verus!
