//! The local authoritative store: keyed CRUD plus sync-state bookkeeping
//! over the two collections. Every operation is single-record; record ids
//! are unique within each collection, which is the store's invariant.

use vstd::prelude::*;

use crate::error::AppError;
use crate::ids::fresh_id;
use crate::models::{Course, NewCourseRequest, NewTodoRequest, SyncState, Todo, UpdateTodoRequest};
use crate::text::{lemma_lex_total, lemma_lex_trans, lex_le, str_bytes_le, str_eq};
use crate::time::now_rfc3339;
use vstd::multiset::assert_multisets_equal;
use vstd::utf8::encode_utf8;

verus! {

// ---------------------------------------------------------------------------
// Looking a record up by id: the first index carrying the id, or -1.
// ---------------------------------------------------------------------------

pub open spec fn course_index(s: Seq<Course>, id: Seq<char>) -> int
    decreases s.len(),
{
    if s.len() == 0 {
        -1
    } else if s[0].id@ == id {
        0
    } else {
        let r = course_index(s.drop_first(), id);
        if r < 0 {
            -1
        } else {
            r + 1
        }
    }
}

pub open spec fn has_course(s: Seq<Course>, id: Seq<char>) -> bool {
    course_index(s, id) >= 0
}

pub proof fn lemma_course_index(s: Seq<Course>, id: Seq<char>)
    ensures
        -1 <= course_index(s, id) < s.len(),
        course_index(s, id) >= 0 ==> s[course_index(s, id)].id@ == id,
        forall|j: int| 0 <= j < course_index(s, id) ==> s[j].id@ != id,
        course_index(s, id) == -1 ==> forall|j: int| 0 <= j < s.len() ==> s[j].id@ != id,
    decreases s.len(),
{
    if s.len() == 0 {
    } else if s[0].id@ == id {
    } else {
        lemma_course_index(s.drop_first(), id);
        assert forall|j: int| 1 <= j < s.len() implies s[j] == s.drop_first()[j - 1] by {}
    }
}

pub open spec fn todo_index(s: Seq<Todo>, id: Seq<char>) -> int
    decreases s.len(),
{
    if s.len() == 0 {
        -1
    } else if s[0].id@ == id {
        0
    } else {
        let r = todo_index(s.drop_first(), id);
        if r < 0 {
            -1
        } else {
            r + 1
        }
    }
}

pub open spec fn has_todo(s: Seq<Todo>, id: Seq<char>) -> bool {
    todo_index(s, id) >= 0
}

pub proof fn lemma_todo_index(s: Seq<Todo>, id: Seq<char>)
    ensures
        -1 <= todo_index(s, id) < s.len(),
        todo_index(s, id) >= 0 ==> s[todo_index(s, id)].id@ == id,
        forall|j: int| 0 <= j < todo_index(s, id) ==> s[j].id@ != id,
        todo_index(s, id) == -1 ==> forall|j: int| 0 <= j < s.len() ==> s[j].id@ != id,
    decreases s.len(),
{
    if s.len() == 0 {
    } else if s[0].id@ == id {
    } else {
        lemma_todo_index(s.drop_first(), id);
        assert forall|j: int| 1 <= j < s.len() implies s[j] == s.drop_first()[j - 1] by {}
    }
}

// ---------------------------------------------------------------------------
// The store's invariant: ids are unique within each collection.
// ---------------------------------------------------------------------------

pub open spec fn course_ids_unique(s: Seq<Course>) -> bool {
    forall|i: int, j: int| 0 <= i < j < s.len() ==> s[i].id@ != s[j].id@
}

pub open spec fn todo_ids_unique(s: Seq<Todo>) -> bool {
    forall|i: int, j: int| 0 <= i < j < s.len() ==> s[i].id@ != s[j].id@
}

// ---------------------------------------------------------------------------
// Record transformers the contracts speak of.
// ---------------------------------------------------------------------------

/// The record with its sync bookkeeping stamped: synced as of `now`.
pub open spec fn course_marked_synced(c: Course, now: String) -> Course {
    Course { sync_state: SyncState::Synced, last_synced_at: Some(now), ..c }
}

pub open spec fn todo_marked_synced(t: Todo, now: String) -> Todo {
    Todo { sync_state: SyncState::Synced, last_synced_at: Some(now), ..t }
}

/// The record with only its archived flag raised, bookkeeping untouched;
/// this is what archival-reconciliation applies.
pub open spec fn course_archived(c: Course) -> Course {
    Course { is_archived: true, ..c }
}

pub open spec fn todo_archived(t: Todo) -> Todo {
    Todo { is_archived: true, ..t }
}

/// Insert if the id is absent, else replace the record carrying the id.
pub open spec fn upsert_course_spec(s: Seq<Course>, c: Course) -> Seq<Course> {
    let i = course_index(s, c.id@);
    if i >= 0 {
        s.update(i, c)
    } else {
        s.push(c)
    }
}

pub open spec fn upsert_todo_spec(s: Seq<Todo>, t: Todo) -> Seq<Todo> {
    let i = todo_index(s, t.id@);
    if i >= 0 {
        s.update(i, t)
    } else {
        s.push(t)
    }
}

// ---------------------------------------------------------------------------
// Record cloning, proved to preserve the value.
// ---------------------------------------------------------------------------

pub(crate) fn clone_opt_string(o: &Option<String>) -> (r: Option<String>)
    ensures
        r == *o,
{
    match o {
        Some(s) => Some(s.clone()),
        None => None,
    }
}

pub fn clone_course(c: &Course) -> (r: Course)
    ensures
        r == *c,
{
    Course {
        id: c.id.clone(),
        title: c.title.clone(),
        semester: c.semester.clone(),
        day_of_week: c.day_of_week.clone(),
        period: c.period,
        room: clone_opt_string(&c.room),
        instructor: clone_opt_string(&c.instructor),
        is_archived: c.is_archived,
        updated_at: c.updated_at.clone(),
        sync_state: c.sync_state,
        last_synced_at: clone_opt_string(&c.last_synced_at),
    }
}

pub fn clone_todo(t: &Todo) -> (r: Todo)
    ensures
        r == *t,
{
    Todo {
        id: t.id.clone(),
        course_id: t.course_id.clone(),
        title: t.title.clone(),
        due_date: t.due_date.clone(),
        status: t.status.clone(),
        completed_at: clone_opt_string(&t.completed_at),
        is_archived: t.is_archived,
        updated_at: t.updated_at.clone(),
        sync_state: t.sync_state,
        last_synced_at: clone_opt_string(&t.last_synced_at),
    }
}

// ---------------------------------------------------------------------------
// The repository.
// ---------------------------------------------------------------------------

pub struct Repository {
    courses: Vec<Course>,
    todos: Vec<Todo>,
}

impl Repository {
    pub closed spec fn spec_courses(&self) -> Seq<Course> {
        self.courses@
    }

    pub closed spec fn spec_todos(&self) -> Seq<Todo> {
        self.todos@
    }

    pub open spec fn wf(&self) -> bool {
        course_ids_unique(self.spec_courses()) && todo_ids_unique(self.spec_todos())
    }

    pub fn new() -> (r: Repository)
        ensures
            r.wf(),
            r.spec_courses() == Seq::<Course>::empty(),
            r.spec_todos() == Seq::<Todo>::empty(),
    {
        Repository { courses: Vec::new(), todos: Vec::new() }
    }

    // -- courses ------------------------------------------------------------

    pub fn course_count(&self) -> (r: usize)
        ensures
            r == self.spec_courses().len(),
    {
        self.courses.len()
    }

    pub fn course_at(&self, i: usize) -> (r: Course)
        requires
            i < self.spec_courses().len(),
        ensures
            r == self.spec_courses()[i as int],
    {
        clone_course(&self.courses[i])
    }

    fn find_course_idx(&self, id: &str) -> (r: Option<usize>)
        ensures
            match r {
                Some(i) => i as int == course_index(self.spec_courses(), id@),
                None => course_index(self.spec_courses(), id@) == -1,
            },
    {
        let n = self.courses.len();
        let mut k: usize = 0;
        while k < n
            invariant
                n == self.spec_courses().len(),
                k <= n,
                forall|j: int| 0 <= j < k ==> self.spec_courses()[j].id@ != id@,
            decreases n - k,
        {
            if str_eq(self.courses[k].id.as_str(), id) {
                proof {
                    lemma_course_index(self.spec_courses(), id@);
                }
                return Some(k);
            }
            k += 1;
        }
        proof {
            lemma_course_index(self.spec_courses(), id@);
        }
        None
    }

    /// Optional lookup by the stable id.
    pub fn find_course_by_id(&self, id: &str) -> (r: Option<Course>)
        ensures
            match r {
                Some(c) => has_course(self.spec_courses(), id@) && c == self.spec_courses()[
                    course_index(self.spec_courses(), id@)
                ],
                None => !has_course(self.spec_courses(), id@),
            },
    {
        proof {
            lemma_course_index(self.spec_courses(), id@);
        }
        match self.find_course_idx(id) {
            Some(i) => Some(clone_course(&self.courses[i])),
            None => None,
        }
    }

    /// Create a course under the given id, stamped pending with the given
    /// last-modified time. Succeeds exactly when the id is not yet taken.
    pub fn insert_course_with_id(
        &mut self,
        req: NewCourseRequest,
        id: String,
        now: String,
    ) -> (r: Result<Course, AppError>)
        requires
            old(self).wf(),
        ensures
            final(self).wf(),
            final(self).spec_todos() == old(self).spec_todos(),
            (r is Ok) == !has_course(old(self).spec_courses(), id@),
            match r {
                Ok(c) => {
                    &&& c.id == id
                    &&& c.title == req.title
                    &&& c.semester == req.semester
                    &&& c.day_of_week == req.day_of_week
                    &&& c.period == req.period
                    &&& c.room == req.room
                    &&& c.instructor == req.instructor
                    &&& c.is_archived == false
                    &&& c.updated_at == now
                    &&& c.sync_state == SyncState::Pending
                    &&& c.last_synced_at is None
                    &&& final(self).spec_courses() == old(self).spec_courses().push(c)
                },
                Err(e) => e is Conflict && final(self).spec_courses() == old(
                    self,
                ).spec_courses(),
            },
    {
        if self.find_course_idx(id.as_str()).is_some() {
            return Err(AppError::Conflict("course id already exists".to_owned()));
        }
        proof {
            lemma_course_index(self.spec_courses(), id@);
        }
        let c = Course {
            id,
            title: req.title,
            semester: req.semester,
            day_of_week: req.day_of_week,
            period: req.period,
            room: req.room,
            instructor: req.instructor,
            is_archived: false,
            updated_at: now,
            sync_state: SyncState::Pending,
            last_synced_at: None,
        };
        let stored = clone_course(&c);
        proof {
            let s = self.spec_courses();
            assert forall|i: int, j: int|
                0 <= i < j < s.push(c).len() implies s.push(c)[i].id@ != s.push(c)[j].id@ by {
                if j < s.len() {
                } else {
                    assert(s.push(c)[j] == c);
                    assert(s.push(c)[i] == s[i]);
                }
            }
        }
        self.courses.push(stored);
        Ok(c)
    }

    /// Create a course under a freshly generated id, stamped pending with a
    /// refreshed last-modified time. Fails only if the generated id collides
    /// with an existing record; in particular, on an empty store it always
    /// succeeds, and it can fail at all only if some stored id has the
    /// 36-character shape a generated id takes.
    pub fn insert_course(&mut self, req: NewCourseRequest) -> (r: Result<Course, AppError>)
        requires
            old(self).wf(),
        ensures
            final(self).wf(),
            final(self).spec_todos() == old(self).spec_todos(),
            old(self).spec_courses().len() == 0 ==> r is Ok,
            r is Err ==> exists|j: int|
                0 <= j < old(self).spec_courses().len() && old(self).spec_courses()[j].id@.len()
                    == 36,
            match r {
                Ok(c) => {
                    &&& c.title == req.title
                    &&& c.semester == req.semester
                    &&& c.day_of_week == req.day_of_week
                    &&& c.period == req.period
                    &&& c.room == req.room
                    &&& c.instructor == req.instructor
                    &&& c.is_archived == false
                    &&& c.sync_state == SyncState::Pending
                    &&& c.last_synced_at is None
                    &&& c.id@.len() == 36
                    &&& !has_course(old(self).spec_courses(), c.id@)
                    &&& final(self).spec_courses() == old(self).spec_courses().push(c)
                },
                Err(e) => e is Conflict && final(self).spec_courses() == old(
                    self,
                ).spec_courses(),
            },
    {
        let id = fresh_id();
        let ghost idv = id@;
        let r = self.insert_course_with_id(req, id, now_rfc3339());
        proof {
            if r is Err {
                lemma_course_index(old(self).spec_courses(), idv);
            }
        }
        r
    }

    /// Insert if absent, else replace the record wholesale; sync bookkeeping
    /// is taken from the given record, not altered. Used by the pull phase.
    pub fn upsert_course(&mut self, c: &Course)
        requires
            old(self).wf(),
        ensures
            final(self).wf(),
            final(self).spec_todos() == old(self).spec_todos(),
            final(self).spec_courses() == upsert_course_spec(old(self).spec_courses(), *c),
    {
        proof {
            lemma_course_index(self.spec_courses(), c.id@);
        }
        let rec = clone_course(c);
        match self.find_course_idx(c.id.as_str()) {
            Some(i) => {
                proof {
                    let s = self.spec_courses();
                    let t = s.update(i as int, *c);
                    assert(s[i as int].id@ == c.id@);
                    assert forall|p: int, q: int|
                        0 <= p < q < t.len() implies t[p].id@ != t[q].id@ by {
                        assert(s[p].id@ != s[q].id@);
                    }
                }
                self.courses[i] = rec;
            },
            None => {
                proof {
                    let s = self.spec_courses();
                    let t = s.push(*c);
                    assert forall|p: int, q: int|
                        0 <= p < q < t.len() implies t[p].id@ != t[q].id@ by {
                        if q < s.len() {
                        } else {
                            assert(t[q] == *c);
                            assert(t[p] == s[p]);
                        }
                    }
                }
                self.courses.push(rec);
            },
        }
    }

    /// Stamp the record synced as of `now`; reports whether the id was found.
    pub fn mark_course_synced(&mut self, id: &str, now: &String) -> (r: bool)
        requires
            old(self).wf(),
        ensures
            final(self).wf(),
            final(self).spec_todos() == old(self).spec_todos(),
            ({
                let s = old(self).spec_courses();
                let ci = course_index(s, id@);
                if ci >= 0 {
                    r && final(self).spec_courses() == s.update(
                        ci,
                        course_marked_synced(s[ci], *now),
                    )
                } else {
                    !r && final(self).spec_courses() == s
                }
            }),
    {
        proof {
            lemma_course_index(self.spec_courses(), id@);
        }
        match self.find_course_idx(id) {
            Some(i) => {
                self.mark_course_synced_at(i, now);
                true
            },
            None => false,
        }
    }

    pub(crate) fn mark_course_synced_at(&mut self, i: usize, now: &String)
        requires
            old(self).wf(),
            i < old(self).spec_courses().len(),
        ensures
            final(self).wf(),
            final(self).spec_todos() == old(self).spec_todos(),
            final(self).spec_courses() == old(self).spec_courses().update(
                i as int,
                course_marked_synced(old(self).spec_courses()[i as int], *now),
            ),
    {
        let c = &self.courses[i];
        let updated = Course {
            id: c.id.clone(),
            title: c.title.clone(),
            semester: c.semester.clone(),
            day_of_week: c.day_of_week.clone(),
            period: c.period,
            room: clone_opt_string(&c.room),
            instructor: clone_opt_string(&c.instructor),
            is_archived: c.is_archived,
            updated_at: c.updated_at.clone(),
            sync_state: SyncState::Synced,
            last_synced_at: Some(now.clone()),
        };
        proof {
            let s = self.spec_courses();
            let t = s.update(i as int, course_marked_synced(s[i as int], *now));
            assert forall|p: int, q: int| 0 <= p < q < t.len() implies t[p].id@ != t[q].id@ by {
                assert(s[p].id@ != s[q].id@);
            }
        }
        self.courses[i] = updated;
    }

    pub(crate) fn set_course_archived_at(&mut self, i: usize)
        requires
            old(self).wf(),
            i < old(self).spec_courses().len(),
        ensures
            final(self).wf(),
            final(self).spec_todos() == old(self).spec_todos(),
            final(self).spec_courses() == old(self).spec_courses().update(
                i as int,
                course_archived(old(self).spec_courses()[i as int]),
            ),
    {
        let c = &self.courses[i];
        let updated = Course {
            id: c.id.clone(),
            title: c.title.clone(),
            semester: c.semester.clone(),
            day_of_week: c.day_of_week.clone(),
            period: c.period,
            room: clone_opt_string(&c.room),
            instructor: clone_opt_string(&c.instructor),
            is_archived: true,
            updated_at: c.updated_at.clone(),
            sync_state: c.sync_state,
            last_synced_at: clone_opt_string(&c.last_synced_at),
        };
        proof {
            let s = self.spec_courses();
            let t = s.update(i as int, course_archived(s[i as int]));
            assert forall|p: int, q: int| 0 <= p < q < t.len() implies t[p].id@ != t[q].id@ by {
                assert(s[p].id@ != s[q].id@);
            }
        }
        self.courses[i] = updated;
    }

    // -- todos --------------------------------------------------------------

    pub fn todo_count(&self) -> (r: usize)
        ensures
            r == self.spec_todos().len(),
    {
        self.todos.len()
    }

    pub fn todo_at(&self, i: usize) -> (r: Todo)
        requires
            i < self.spec_todos().len(),
        ensures
            r == self.spec_todos()[i as int],
    {
        clone_todo(&self.todos[i])
    }

    fn find_todo_idx(&self, id: &str) -> (r: Option<usize>)
        ensures
            match r {
                Some(i) => i as int == todo_index(self.spec_todos(), id@),
                None => todo_index(self.spec_todos(), id@) == -1,
            },
    {
        let n = self.todos.len();
        let mut k: usize = 0;
        while k < n
            invariant
                n == self.spec_todos().len(),
                k <= n,
                forall|j: int| 0 <= j < k ==> self.spec_todos()[j].id@ != id@,
            decreases n - k,
        {
            if str_eq(self.todos[k].id.as_str(), id) {
                proof {
                    lemma_todo_index(self.spec_todos(), id@);
                }
                return Some(k);
            }
            k += 1;
        }
        proof {
            lemma_todo_index(self.spec_todos(), id@);
        }
        None
    }

    /// Optional lookup by the stable id.
    pub fn find_todo_by_id(&self, id: &str) -> (r: Option<Todo>)
        ensures
            match r {
                Some(t) => has_todo(self.spec_todos(), id@) && t == self.spec_todos()[todo_index(
                    self.spec_todos(),
                    id@,
                )],
                None => !has_todo(self.spec_todos(), id@),
            },
    {
        proof {
            lemma_todo_index(self.spec_todos(), id@);
        }
        match self.find_todo_idx(id) {
            Some(i) => Some(clone_todo(&self.todos[i])),
            None => None,
        }
    }

    /// Create a task under the given id, stamped pending with the given
    /// last-modified time. Succeeds exactly when the id is not yet taken.
    pub fn insert_todo_with_id(
        &mut self,
        req: NewTodoRequest,
        id: String,
        now: String,
    ) -> (r: Result<Todo, AppError>)
        requires
            old(self).wf(),
        ensures
            final(self).wf(),
            final(self).spec_courses() == old(self).spec_courses(),
            (r is Ok) == !has_todo(old(self).spec_todos(), id@),
            match r {
                Ok(t) => {
                    &&& t.id == id
                    &&& t.course_id == req.course_id
                    &&& t.title == req.title
                    &&& t.due_date == req.due_date
                    &&& t.status == req.status
                    &&& t.completed_at is None
                    &&& t.is_archived == false
                    &&& t.updated_at == now
                    &&& t.sync_state == SyncState::Pending
                    &&& t.last_synced_at is None
                    &&& final(self).spec_todos() == old(self).spec_todos().push(t)
                },
                Err(e) => e is Conflict && final(self).spec_todos() == old(self).spec_todos(),
            },
    {
        if self.find_todo_idx(id.as_str()).is_some() {
            return Err(AppError::Conflict("todo id already exists".to_owned()));
        }
        proof {
            lemma_todo_index(self.spec_todos(), id@);
        }
        let t = Todo {
            id,
            course_id: req.course_id,
            title: req.title,
            due_date: req.due_date,
            status: req.status,
            completed_at: None,
            is_archived: false,
            updated_at: now,
            sync_state: SyncState::Pending,
            last_synced_at: None,
        };
        let stored = clone_todo(&t);
        proof {
            let s = self.spec_todos();
            assert forall|i: int, j: int|
                0 <= i < j < s.push(t).len() implies s.push(t)[i].id@ != s.push(t)[j].id@ by {
                if j < s.len() {
                } else {
                    assert(s.push(t)[j] == t);
                    assert(s.push(t)[i] == s[i]);
                }
            }
        }
        self.todos.push(stored);
        Ok(t)
    }

    /// Create a task under a freshly generated id, stamped pending with a
    /// refreshed last-modified time. Fails only if the generated id collides
    /// with an existing record; in particular, on an empty store it always
    /// succeeds, and it can fail at all only if some stored id has the
    /// 36-character shape a generated id takes.
    pub fn insert_todo(&mut self, req: NewTodoRequest) -> (r: Result<Todo, AppError>)
        requires
            old(self).wf(),
        ensures
            final(self).wf(),
            final(self).spec_courses() == old(self).spec_courses(),
            old(self).spec_todos().len() == 0 ==> r is Ok,
            r is Err ==> exists|j: int|
                0 <= j < old(self).spec_todos().len() && old(self).spec_todos()[j].id@.len()
                    == 36,
            match r {
                Ok(t) => {
                    &&& t.course_id == req.course_id
                    &&& t.title == req.title
                    &&& t.due_date == req.due_date
                    &&& t.status == req.status
                    &&& t.completed_at is None
                    &&& t.is_archived == false
                    &&& t.sync_state == SyncState::Pending
                    &&& t.last_synced_at is None
                    &&& t.id@.len() == 36
                    &&& !has_todo(old(self).spec_todos(), t.id@)
                    &&& final(self).spec_todos() == old(self).spec_todos().push(t)
                },
                Err(e) => e is Conflict && final(self).spec_todos() == old(self).spec_todos(),
            },
    {
        let id = fresh_id();
        let ghost idv = id@;
        let r = self.insert_todo_with_id(req, id, now_rfc3339());
        proof {
            if r is Err {
                lemma_todo_index(old(self).spec_todos(), idv);
            }
        }
        r
    }

    /// Insert if absent, else replace the record wholesale; sync bookkeeping
    /// is taken from the given record, not altered. Used by the pull phase.
    pub fn upsert_todo(&mut self, t: &Todo)
        requires
            old(self).wf(),
        ensures
            final(self).wf(),
            final(self).spec_courses() == old(self).spec_courses(),
            final(self).spec_todos() == upsert_todo_spec(old(self).spec_todos(), *t),
    {
        proof {
            lemma_todo_index(self.spec_todos(), t.id@);
        }
        let rec = clone_todo(t);
        match self.find_todo_idx(t.id.as_str()) {
            Some(i) => {
                proof {
                    let s = self.spec_todos();
                    let u = s.update(i as int, *t);
                    assert(s[i as int].id@ == t.id@);
                    assert forall|p: int, q: int|
                        0 <= p < q < u.len() implies u[p].id@ != u[q].id@ by {
                        assert(s[p].id@ != s[q].id@);
                    }
                }
                self.todos[i] = rec;
            },
            None => {
                proof {
                    let s = self.spec_todos();
                    let u = s.push(*t);
                    assert forall|p: int, q: int|
                        0 <= p < q < u.len() implies u[p].id@ != u[q].id@ by {
                        if q < s.len() {
                        } else {
                            assert(u[q] == *t);
                            assert(u[p] == s[p]);
                        }
                    }
                }
                self.todos.push(rec);
            },
        }
    }

    /// Merge only the supplied fields into the record, refresh its
    /// last-modified time and reset it to pending. `None` if the id misses.
    pub fn update_todo(&mut self, id: &str, req: UpdateTodoRequest) -> (r: Option<Todo>)
        requires
            old(self).wf(),
        ensures
            final(self).wf(),
            final(self).spec_courses() == old(self).spec_courses(),
            ({
                let s = old(self).spec_todos();
                let s2 = final(self).spec_todos();
                let ti = todo_index(s, id@);
                match r {
                    Some(t) => ti >= 0 && todo_merge_rel(s[ti], req, t) && s2 == s.update(ti, t),
                    None => ti < 0 && s2 == s,
                }
            }),
    {
        proof {
            lemma_todo_index(self.spec_todos(), id@);
        }
        let i = match self.find_todo_idx(id) {
            Some(i) => i,
            None => {
                return None;
            },
        };
        let now = now_rfc3339();
        let cur = &self.todos[i];
        let updated = Todo {
            id: cur.id.clone(),
            course_id: cur.course_id.clone(),
            title: match req.title {
                Some(title) => title,
                None => cur.title.clone(),
            },
            due_date: match req.due_date {
                Some(due_date) => due_date,
                None => cur.due_date.clone(),
            },
            status: match req.status {
                Some(status) => status,
                None => cur.status.clone(),
            },
            completed_at: clone_opt_string(&cur.completed_at),
            is_archived: cur.is_archived,
            updated_at: now,
            sync_state: SyncState::Pending,
            last_synced_at: clone_opt_string(&cur.last_synced_at),
        };
        let returned = clone_todo(&updated);
        proof {
            let s = self.spec_todos();
            let u = s.update(i as int, updated);
            assert forall|p: int, q: int| 0 <= p < q < u.len() implies u[p].id@ != u[q].id@ by {
                assert(s[p].id@ != s[q].id@);
            }
        }
        self.todos[i] = updated;
        Some(returned)
    }

    /// Soft-delete: raise the archived flag, refresh last-modified, reset to
    /// pending. Reports whether the id was found.
    pub fn archive_todo(&mut self, id: &str) -> (r: bool)
        requires
            old(self).wf(),
        ensures
            final(self).wf(),
            final(self).spec_courses() == old(self).spec_courses(),
            ({
                let s = old(self).spec_todos();
                let s2 = final(self).spec_todos();
                let ti = todo_index(s, id@);
                if ti >= 0 {
                    r && s2.len() == s.len() && todo_flag_rel(s[ti], s2[ti], true) && (forall|
                        j: int,
                    | 0 <= j < s.len() && j != ti ==> s2[j] == s[j])
                } else {
                    !r && s2 == s
                }
            }),
    {
        self.set_todo_archived_flag(id, true)
    }

    /// Undo a soft-delete: clear the archived flag, refresh last-modified,
    /// reset to pending. Reports whether the id was found.
    pub fn unarchive_todo(&mut self, id: &str) -> (r: bool)
        requires
            old(self).wf(),
        ensures
            final(self).wf(),
            final(self).spec_courses() == old(self).spec_courses(),
            ({
                let s = old(self).spec_todos();
                let s2 = final(self).spec_todos();
                let ti = todo_index(s, id@);
                if ti >= 0 {
                    r && s2.len() == s.len() && todo_flag_rel(s[ti], s2[ti], false) && (forall|
                        j: int,
                    | 0 <= j < s.len() && j != ti ==> s2[j] == s[j])
                } else {
                    !r && s2 == s
                }
            }),
    {
        self.set_todo_archived_flag(id, false)
    }

    fn set_todo_archived_flag(&mut self, id: &str, flag: bool) -> (r: bool)
        requires
            old(self).wf(),
        ensures
            final(self).wf(),
            final(self).spec_courses() == old(self).spec_courses(),
            ({
                let s = old(self).spec_todos();
                let s2 = final(self).spec_todos();
                let ti = todo_index(s, id@);
                if ti >= 0 {
                    r && s2.len() == s.len() && todo_flag_rel(s[ti], s2[ti], flag) && (forall|
                        j: int,
                    | 0 <= j < s.len() && j != ti ==> s2[j] == s[j])
                } else {
                    !r && s2 == s
                }
            }),
    {
        proof {
            lemma_todo_index(self.spec_todos(), id@);
        }
        let i = match self.find_todo_idx(id) {
            Some(i) => i,
            None => {
                return false;
            },
        };
        let now = now_rfc3339();
        let cur = &self.todos[i];
        let updated = Todo {
            id: cur.id.clone(),
            course_id: cur.course_id.clone(),
            title: cur.title.clone(),
            due_date: cur.due_date.clone(),
            status: cur.status.clone(),
            completed_at: clone_opt_string(&cur.completed_at),
            is_archived: flag,
            updated_at: now,
            sync_state: SyncState::Pending,
            last_synced_at: clone_opt_string(&cur.last_synced_at),
        };
        proof {
            let s = self.spec_todos();
            let u = s.update(i as int, updated);
            assert forall|p: int, q: int| 0 <= p < q < u.len() implies u[p].id@ != u[q].id@ by {
                assert(s[p].id@ != s[q].id@);
            }
        }
        self.todos[i] = updated;
        true
    }

    pub(crate) fn mark_todo_synced_at(&mut self, i: usize, now: &String)
        requires
            old(self).wf(),
            i < old(self).spec_todos().len(),
        ensures
            final(self).wf(),
            final(self).spec_courses() == old(self).spec_courses(),
            final(self).spec_todos() == old(self).spec_todos().update(
                i as int,
                todo_marked_synced(old(self).spec_todos()[i as int], *now),
            ),
    {
        let t = &self.todos[i];
        let updated = Todo {
            id: t.id.clone(),
            course_id: t.course_id.clone(),
            title: t.title.clone(),
            due_date: t.due_date.clone(),
            status: t.status.clone(),
            completed_at: clone_opt_string(&t.completed_at),
            is_archived: t.is_archived,
            updated_at: t.updated_at.clone(),
            sync_state: SyncState::Synced,
            last_synced_at: Some(now.clone()),
        };
        proof {
            let s = self.spec_todos();
            let u = s.update(i as int, todo_marked_synced(s[i as int], *now));
            assert forall|p: int, q: int| 0 <= p < q < u.len() implies u[p].id@ != u[q].id@ by {
                assert(s[p].id@ != s[q].id@);
            }
        }
        self.todos[i] = updated;
    }

    /// Stamp the record synced as of `now`; reports whether the id was found.
    pub fn mark_todo_synced(&mut self, id: &str, now: &String) -> (r: bool)
        requires
            old(self).wf(),
        ensures
            final(self).wf(),
            final(self).spec_courses() == old(self).spec_courses(),
            ({
                let s = old(self).spec_todos();
                let ti = todo_index(s, id@);
                if ti >= 0 {
                    r && final(self).spec_todos() == s.update(
                        ti,
                        todo_marked_synced(s[ti], *now),
                    )
                } else {
                    !r && final(self).spec_todos() == s
                }
            }),
    {
        proof {
            lemma_todo_index(self.spec_todos(), id@);
        }
        match self.find_todo_idx(id) {
            Some(i) => {
                self.mark_todo_synced_at(i, now);
                true
            },
            None => false,
        }
    }

    pub(crate) fn set_todo_archived_at(&mut self, i: usize)
        requires
            old(self).wf(),
            i < old(self).spec_todos().len(),
        ensures
            final(self).wf(),
            final(self).spec_courses() == old(self).spec_courses(),
            final(self).spec_todos() == old(self).spec_todos().update(
                i as int,
                todo_archived(old(self).spec_todos()[i as int]),
            ),
    {
        let t = &self.todos[i];
        let updated = Todo {
            id: t.id.clone(),
            course_id: t.course_id.clone(),
            title: t.title.clone(),
            due_date: t.due_date.clone(),
            status: t.status.clone(),
            completed_at: clone_opt_string(&t.completed_at),
            is_archived: true,
            updated_at: t.updated_at.clone(),
            sync_state: t.sync_state,
            last_synced_at: clone_opt_string(&t.last_synced_at),
        };
        proof {
            let s = self.spec_todos();
            let u = s.update(i as int, todo_archived(s[i as int]));
            assert forall|p: int, q: int| 0 <= p < q < u.len() implies u[p].id@ != u[q].id@ by {
                assert(s[p].id@ != s[q].id@);
            }
        }
        self.todos[i] = updated;
    }
}

/// How an updated task relates to the record it replaces: supplied fields
/// merged, last-modified refreshed (to the call time, left open here), and
/// the record reset to pending.
pub open spec fn todo_merge_rel(o: Todo, req: UpdateTodoRequest, t: Todo) -> bool {
    &&& t.id == o.id
    &&& t.course_id == o.course_id
    &&& t.title == (if req.title is Some {
        req.title->0
    } else {
        o.title
    })
    &&& t.due_date == (if req.due_date is Some {
        req.due_date->0
    } else {
        o.due_date
    })
    &&& t.status == (if req.status is Some {
        req.status->0
    } else {
        o.status
    })
    &&& t.completed_at == o.completed_at
    &&& t.is_archived == o.is_archived
    &&& t.sync_state == SyncState::Pending
    &&& t.last_synced_at == o.last_synced_at
}

/// How an archived or unarchived task relates to the record it replaces:
/// only the flag changes, last-modified is refreshed (left open), and the
/// record is reset to pending.
pub open spec fn todo_flag_rel(o: Todo, t: Todo, flag: bool) -> bool {
    &&& t.id == o.id
    &&& t.course_id == o.course_id
    &&& t.title == o.title
    &&& t.due_date == o.due_date
    &&& t.status == o.status
    &&& t.completed_at == o.completed_at
    &&& t.is_archived == flag
    &&& t.sync_state == SyncState::Pending
    &&& t.last_synced_at == o.last_synced_at
}


// ---------------------------------------------------------------------------
// Listing: filtered views of the store, newest last-modified first.
// ---------------------------------------------------------------------------

/// The sort key of a record: its last-modified timestamp's bytes. RFC 3339
/// timestamps of one clock compare chronologically in this order.
pub open spec fn course_key(c: Course) -> Seq<u8> {
    encode_utf8(c.updated_at@)
}

pub open spec fn todo_key(t: Todo) -> Seq<u8> {
    encode_utf8(t.updated_at@)
}

/// Newest first: every later record's key is at most every earlier one's.
pub open spec fn courses_sorted_desc(s: Seq<Course>) -> bool {
    forall|i: int, j: int| 0 <= i < j < s.len() ==> lex_le(course_key(s[j]), course_key(s[i]))
}

pub open spec fn todos_sorted_desc(s: Seq<Todo>) -> bool {
    forall|i: int, j: int| 0 <= i < j < s.len() ==> lex_le(todo_key(s[j]), todo_key(s[i]))
}

proof fn lemma_course_insert_to_multiset(s: Seq<Course>, i: int, e: Course)
    requires
        0 <= i <= s.len(),
    ensures
        s.insert(i, e).to_multiset() == s.to_multiset().insert(e),
{
    broadcast use vstd::seq_lib::group_to_multiset_ensures;

    let t = s.insert(i, e);
    assert(t.remove(i) =~= s);
    assert(t[i] == e);
    assert(t.contains(e));
    assert(s.to_multiset() =~= t.to_multiset().remove(e));
    assert_multisets_equal!(t.to_multiset(), s.to_multiset().insert(e));
}

proof fn lemma_todo_insert_to_multiset(s: Seq<Todo>, i: int, e: Todo)
    requires
        0 <= i <= s.len(),
    ensures
        s.insert(i, e).to_multiset() == s.to_multiset().insert(e),
{
    broadcast use vstd::seq_lib::group_to_multiset_ensures;

    let t = s.insert(i, e);
    assert(t.remove(i) =~= s);
    assert(t[i] == e);
    assert(t.contains(e));
    assert(s.to_multiset() =~= t.to_multiset().remove(e));
    assert_multisets_equal!(t.to_multiset(), s.to_multiset().insert(e));
}

fn sorted_insert_course(out: &mut Vec<Course>, c: Course)
    requires
        courses_sorted_desc(old(out)@),
    ensures
        courses_sorted_desc(final(out)@),
        final(out)@.to_multiset() == old(out)@.to_multiset().insert(c),
{
    let n = out.len();
    let mut pos: usize = 0;
    let mut scanning: bool = true;
    while scanning && pos < n
        invariant
            n == out@.len(),
            pos <= n,
            out@ == old(out)@,
            forall|p: int| 0 <= p < pos ==> lex_le(course_key(c), course_key(out@[p])),
            !scanning ==> pos < n && !lex_le(course_key(c), course_key(out@[pos as int])),
        decreases n - pos + (if scanning {
            1int
        } else {
            0int
        }),
    {
        if str_bytes_le(c.updated_at.as_str(), out[pos].updated_at.as_str()) {
            pos += 1;
        } else {
            scanning = false;
        }
    }
    proof {
        let s = out@;
        let t = s.insert(pos as int, c);
        assert forall|i: int, j: int|
            0 <= i < j < t.len() implies lex_le(course_key(t[j]), course_key(t[i])) by {
            if j < pos {
                assert(t[i] == s[i] && t[j] == s[j]);
            } else if j == pos {
                assert(t[j] == c && t[i] == s[i]);
            } else if i < pos {
                assert(t[i] == s[i] && t[j] == s[j - 1]);
            } else if i == pos {
                assert(t[i] == c && t[j] == s[j - 1]);
                lemma_lex_total(course_key(c), course_key(s[pos as int]));
                if j - 1 > pos {
                    lemma_lex_trans(
                        course_key(s[j - 1]),
                        course_key(s[pos as int]),
                        course_key(c),
                    );
                }
            } else {
                assert(t[i] == s[i - 1] && t[j] == s[j - 1]);
            }
        }
        lemma_course_insert_to_multiset(s, pos as int, c);
    }
    out.insert(pos, c);
}

fn sorted_insert_todo(out: &mut Vec<Todo>, t: Todo)
    requires
        todos_sorted_desc(old(out)@),
    ensures
        todos_sorted_desc(final(out)@),
        final(out)@.to_multiset() == old(out)@.to_multiset().insert(t),
{
    let n = out.len();
    let mut pos: usize = 0;
    let mut scanning: bool = true;
    while scanning && pos < n
        invariant
            n == out@.len(),
            pos <= n,
            out@ == old(out)@,
            forall|p: int| 0 <= p < pos ==> lex_le(todo_key(t), todo_key(out@[p])),
            !scanning ==> pos < n && !lex_le(todo_key(t), todo_key(out@[pos as int])),
        decreases n - pos + (if scanning {
            1int
        } else {
            0int
        }),
    {
        if str_bytes_le(t.updated_at.as_str(), out[pos].updated_at.as_str()) {
            pos += 1;
        } else {
            scanning = false;
        }
    }
    proof {
        let s = out@;
        let u = s.insert(pos as int, t);
        assert forall|i: int, j: int|
            0 <= i < j < u.len() implies lex_le(todo_key(u[j]), todo_key(u[i])) by {
            if j < pos {
                assert(u[i] == s[i] && u[j] == s[j]);
            } else if j == pos {
                assert(u[j] == t && u[i] == s[i]);
            } else if i < pos {
                assert(u[i] == s[i] && u[j] == s[j - 1]);
            } else if i == pos {
                assert(u[i] == t && u[j] == s[j - 1]);
                lemma_lex_total(todo_key(t), todo_key(s[pos as int]));
                if j - 1 > pos {
                    lemma_lex_trans(todo_key(s[j - 1]), todo_key(s[pos as int]), todo_key(t));
                }
            } else {
                assert(u[i] == s[i - 1] && u[j] == s[j - 1]);
            }
        }
        lemma_todo_insert_to_multiset(s, pos as int, t);
    }
    out.insert(pos, t);
}

impl Repository {
    /// Records where archived is false, ordered by last-modified descending.
    pub fn fetch_courses(&self) -> (r: Vec<Course>)
        ensures
            r@.to_multiset() == self.spec_courses().filter(
                |c: Course| !c.is_archived,
            ).to_multiset(),
            courses_sorted_desc(r@),
    {
        broadcast use vstd::seq_lib::group_to_multiset_ensures;

        let n = self.courses.len();
        let mut out: Vec<Course> = Vec::new();
        let mut k: usize = 0;
        proof {
            reveal(Seq::filter);
            assert(self.spec_courses().take(0).filter(|c: Course| !c.is_archived) =~= Seq::<
                Course,
            >::empty());
            assert(out@.to_multiset() =~= Seq::<Course>::empty().to_multiset());
        }
        while k < n
            invariant
                n == self.spec_courses().len(),
                k <= n,
                courses_sorted_desc(out@),
                out@.to_multiset() == self.spec_courses().take(k as int).filter(
                    |c: Course| !c.is_archived,
                ).to_multiset(),
            decreases n - k,
        {
            broadcast use vstd::seq_lib::group_to_multiset_ensures;

            proof {
                reveal(Seq::filter);
                assert(self.spec_courses().take((k + 1) as int).drop_last() =~= self.spec_courses(
                ).take(k as int));
                assert(self.spec_courses().take((k + 1) as int).last() == self.spec_courses()[
                    k as int]);
                assert(self.spec_courses().take((k + 1) as int).filter(|c: Course| !c.is_archived)
                    == (if !self.spec_courses()[k as int].is_archived {
                    self.spec_courses().take(k as int).filter(|c: Course| !c.is_archived).push(
                        self.spec_courses()[k as int],
                    )
                } else {
                    self.spec_courses().take(k as int).filter(|c: Course| !c.is_archived)
                }));
            }
            let c = clone_course(&self.courses[k]);
            if !c.is_archived {
                sorted_insert_course(&mut out, c);
            }
            k += 1;
        }
        proof {
            assert(self.spec_courses().take(n as int) =~= self.spec_courses());
        }
        out
    }

    /// All courses, archived included, ordered by last-modified descending.
    pub fn fetch_all_courses(&self) -> (r: Vec<Course>)
        ensures
            r@.to_multiset() == self.spec_courses().to_multiset(),
            courses_sorted_desc(r@),
    {
        broadcast use vstd::seq_lib::group_to_multiset_ensures;

        let n = self.courses.len();
        let mut out: Vec<Course> = Vec::new();
        let mut k: usize = 0;
        proof {
            assert(out@.to_multiset() =~= self.spec_courses().take(0).to_multiset());
        }
        while k < n
            invariant
                n == self.spec_courses().len(),
                k <= n,
                courses_sorted_desc(out@),
                out@.to_multiset() == self.spec_courses().take(k as int).to_multiset(),
            decreases n - k,
        {
            broadcast use vstd::seq_lib::group_to_multiset_ensures;

            proof {
                assert(self.spec_courses().take((k + 1) as int).drop_last() =~= self.spec_courses(
                ).take(k as int));
                assert(self.spec_courses().take((k + 1) as int) == self.spec_courses().take(
                    k as int,
                ).push(self.spec_courses()[k as int]));
            }
            let c = clone_course(&self.courses[k]);
            sorted_insert_course(&mut out, c);
            k += 1;
        }
        proof {
            assert(self.spec_courses().take(n as int) =~= self.spec_courses());
        }
        out
    }

    /// Active tasks, ordered by last-modified descending.
    pub fn fetch_todos(&self) -> (r: Vec<Todo>)
        ensures
            r@.to_multiset() == self.spec_todos().filter(|t: Todo| !t.is_archived).to_multiset(),
            todos_sorted_desc(r@),
    {
        broadcast use vstd::seq_lib::group_to_multiset_ensures;

        let n = self.todos.len();
        let mut out: Vec<Todo> = Vec::new();
        let mut k: usize = 0;
        proof {
            reveal(Seq::filter);
            assert(self.spec_todos().take(0).filter(|t: Todo| !t.is_archived) =~= Seq::<
                Todo,
            >::empty());
            assert(out@.to_multiset() =~= Seq::<Todo>::empty().to_multiset());
        }
        while k < n
            invariant
                n == self.spec_todos().len(),
                k <= n,
                todos_sorted_desc(out@),
                out@.to_multiset() == self.spec_todos().take(k as int).filter(
                    |t: Todo| !t.is_archived,
                ).to_multiset(),
            decreases n - k,
        {
            broadcast use vstd::seq_lib::group_to_multiset_ensures;

            proof {
                reveal(Seq::filter);
                assert(self.spec_todos().take((k + 1) as int).drop_last() =~= self.spec_todos(
                ).take(k as int));
                assert(self.spec_todos().take((k + 1) as int).last() == self.spec_todos()[
                    k as int]);
                assert(self.spec_todos().take((k + 1) as int).filter(|t: Todo| !t.is_archived)
                    == (if !self.spec_todos()[k as int].is_archived {
                    self.spec_todos().take(k as int).filter(|t: Todo| !t.is_archived).push(
                        self.spec_todos()[k as int],
                    )
                } else {
                    self.spec_todos().take(k as int).filter(|t: Todo| !t.is_archived)
                }));
            }
            let t = clone_todo(&self.todos[k]);
            if !t.is_archived {
                sorted_insert_todo(&mut out, t);
            }
            k += 1;
        }
        proof {
            assert(self.spec_todos().take(n as int) =~= self.spec_todos());
        }
        out
    }

    /// All tasks, archived included, ordered by last-modified descending.
    pub fn fetch_all_todos(&self) -> (r: Vec<Todo>)
        ensures
            r@.to_multiset() == self.spec_todos().to_multiset(),
            todos_sorted_desc(r@),
    {
        broadcast use vstd::seq_lib::group_to_multiset_ensures;

        let n = self.todos.len();
        let mut out: Vec<Todo> = Vec::new();
        let mut k: usize = 0;
        proof {
            assert(out@.to_multiset() =~= self.spec_todos().take(0).to_multiset());
        }
        while k < n
            invariant
                n == self.spec_todos().len(),
                k <= n,
                todos_sorted_desc(out@),
                out@.to_multiset() == self.spec_todos().take(k as int).to_multiset(),
            decreases n - k,
        {
            broadcast use vstd::seq_lib::group_to_multiset_ensures;

            proof {
                assert(self.spec_todos().take((k + 1) as int).drop_last() =~= self.spec_todos(
                ).take(k as int));
                assert(self.spec_todos().take((k + 1) as int) == self.spec_todos().take(
                    k as int,
                ).push(self.spec_todos()[k as int]));
            }
            let t = clone_todo(&self.todos[k]);
            sorted_insert_todo(&mut out, t);
            k += 1;
        }
        proof {
            assert(self.spec_todos().take(n as int) =~= self.spec_todos());
        }
        out
    }

    /// Tasks with unconfirmed local changes, ordered by last-modified
    /// descending: what the push phase owes a remote call.
    pub fn fetch_pending_todos(&self) -> (r: Vec<Todo>)
        ensures
            r@.to_multiset() == self.spec_todos().filter(
                |t: Todo| t.sync_state != SyncState::Synced,
            ).to_multiset(),
            todos_sorted_desc(r@),
    {
        broadcast use vstd::seq_lib::group_to_multiset_ensures;

        let n = self.todos.len();
        let mut out: Vec<Todo> = Vec::new();
        let mut k: usize = 0;
        proof {
            reveal(Seq::filter);
            assert(self.spec_todos().take(0).filter(|t: Todo| t.sync_state != SyncState::Synced)
                =~= Seq::<Todo>::empty());
            assert(out@.to_multiset() =~= Seq::<Todo>::empty().to_multiset());
        }
        while k < n
            invariant
                n == self.spec_todos().len(),
                k <= n,
                todos_sorted_desc(out@),
                out@.to_multiset() == self.spec_todos().take(k as int).filter(
                    |t: Todo| t.sync_state != SyncState::Synced,
                ).to_multiset(),
            decreases n - k,
        {
            broadcast use vstd::seq_lib::group_to_multiset_ensures;

            proof {
                reveal(Seq::filter);
                assert(self.spec_todos().take((k + 1) as int).drop_last() =~= self.spec_todos(
                ).take(k as int));
                assert(self.spec_todos().take((k + 1) as int).last() == self.spec_todos()[
                    k as int]);
                assert(self.spec_todos().take((k + 1) as int).filter(
                    |t: Todo| t.sync_state != SyncState::Synced,
                ) == (if self.spec_todos()[k as int].sync_state != SyncState::Synced {
                    self.spec_todos().take(k as int).filter(
                        |t: Todo| t.sync_state != SyncState::Synced,
                    ).push(self.spec_todos()[k as int])
                } else {
                    self.spec_todos().take(k as int).filter(
                        |t: Todo| t.sync_state != SyncState::Synced,
                    )
                }));
            }
            let t = clone_todo(&self.todos[k]);
            if t.sync_state != SyncState::Synced {
                sorted_insert_todo(&mut out, t);
            }
            k += 1;
        }
        proof {
            assert(self.spec_todos().take(n as int) =~= self.spec_todos());
        }
        out
    }
}

} // verus!
