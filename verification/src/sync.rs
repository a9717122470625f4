//! The sync engine: three ordered phases per invocation — push, pull,
//! archival-reconciliation — each scoped per entity kind, courses before
//! tasks. Conflict policy: a pending local record is never overwritten by a
//! pull, and a synced local record strictly newer than its remote copy
//! (when both last-modified timestamps parse) is skipped as well.

use vstd::prelude::*;

use crate::client::NotionClient;
use crate::error::AppError;
use crate::models::{Course, SyncState, Todo};
use crate::repository::{
    course_archived, course_ids_unique, course_index, course_marked_synced, lemma_course_index,
    lemma_todo_index, todo_archived, todo_ids_unique, todo_index, todo_marked_synced,
    upsert_course_spec, upsert_todo_spec, Repository,
};
use crate::text::str_eq;
use crate::time::{now_rfc3339, parse_timestamp, rfc3339_micros};

verus! {

/// Per-kind counts of one sync run, returned to the caller.
#[derive(Clone, Copy, Debug, PartialEq, Eq, Structural)]
pub struct SyncStats {
    pub courses_pushed: usize,
    pub courses_pulled: usize,
    pub courses_skipped: usize,
    pub todos_pushed: usize,
    pub todos_pulled: usize,
    pub todos_skipped: usize,
}

// ---------------------------------------------------------------------------
// Conflict policy, as spec functions.
// ---------------------------------------------------------------------------

/// The local record was modified strictly after the remote one; only decided
/// when both last-modified timestamps parse as RFC 3339.
pub open spec fn course_local_newer(local: Course, remote: Course) -> bool {
    match (rfc3339_micros(local.updated_at@), rfc3339_micros(remote.updated_at@)) {
        (Some(l), Some(r)) => l > r,
        _ => false,
    }
}

pub open spec fn todo_local_newer(local: Todo, remote: Todo) -> bool {
    match (rfc3339_micros(local.updated_at@), rfc3339_micros(remote.updated_at@)) {
        (Some(l), Some(r)) => l > r,
        _ => false,
    }
}

/// The pull phase skips a remote record exactly when a local record with the
/// same id exists and is pending, or is newer than the remote copy.
pub open spec fn course_pull_skips(locals: Seq<Course>, remote: Course) -> bool {
    let i = course_index(locals, remote.id@);
    i >= 0 && (locals[i].sync_state == SyncState::Pending || course_local_newer(
        locals[i],
        remote,
    ))
}

pub open spec fn todo_pull_skips(locals: Seq<Todo>, remote: Todo) -> bool {
    let i = todo_index(locals, remote.id@);
    i >= 0 && (locals[i].sync_state == SyncState::Pending || todo_local_newer(locals[i], remote))
}

// ---------------------------------------------------------------------------
// The pull phase as a fold over the remote batch.
// ---------------------------------------------------------------------------

/// Processing the remote batch left to right: each record is either skipped
/// by the conflict policy or upserted, stamped synced as of `now`. Yields
/// the resulting collection and the pulled and skipped counts.
pub open spec fn pull_courses_spec(locals: Seq<Course>, remote: Seq<Course>, now: String) -> (
    Seq<Course>,
    int,
    int,
)
    decreases remote.len(),
{
    if remote.len() == 0 {
        (locals, 0, 0)
    } else {
        let f = pull_courses_spec(locals, remote.drop_last(), now);
        let rec = remote.last();
        if course_pull_skips(f.0, rec) {
            (f.0, f.1, f.2 + 1)
        } else {
            (upsert_course_spec(f.0, course_marked_synced(rec, now)), f.1 + 1, f.2)
        }
    }
}

pub open spec fn pull_todos_spec(locals: Seq<Todo>, remote: Seq<Todo>, now: String) -> (
    Seq<Todo>,
    int,
    int,
)
    decreases remote.len(),
{
    if remote.len() == 0 {
        (locals, 0, 0)
    } else {
        let f = pull_todos_spec(locals, remote.drop_last(), now);
        let rec = remote.last();
        if todo_pull_skips(f.0, rec) {
            (f.0, f.1, f.2 + 1)
        } else {
            (upsert_todo_spec(f.0, todo_marked_synced(rec, now)), f.1 + 1, f.2)
        }
    }
}

/// Every record the pull leaves behind is either an original local record,
/// untouched, or carries the synced stamp of this run.
pub open spec fn course_pull_untouched_or_stamped(
    locals: Seq<Course>,
    f0: Seq<Course>,
    now: String,
) -> bool {
    forall|i: int|
        0 <= i < f0.len() ==> ((i < locals.len() && f0[i] == locals[i]) || (f0[i].sync_state
            == SyncState::Synced && f0[i].last_synced_at == Some(now)))
}

pub open spec fn todo_pull_untouched_or_stamped(
    locals: Seq<Todo>,
    f0: Seq<Todo>,
    now: String,
) -> bool {
    forall|i: int|
        0 <= i < f0.len() ==> ((i < locals.len() && f0[i] == locals[i]) || (f0[i].sync_state
            == SyncState::Synced && f0[i].last_synced_at == Some(now)))
}

/// Each record a pull leaves in the store is either an original local
/// record, untouched, or carries the synced stamp of this run.
pub proof fn lemma_pull_courses_stamped(locals: Seq<Course>, remote: Seq<Course>, now: String, i: int)
    requires
        0 <= i < pull_courses_spec(locals, remote, now).0.len(),
    ensures
        ({
            let f = pull_courses_spec(locals, remote, now);
            (i < locals.len() && f.0[i] == locals[i]) || (f.0[i].sync_state == SyncState::Synced
                && f.0[i].last_synced_at == Some(now))
        }),
    decreases remote.len(),
{
    if remote.len() == 0 {
    } else {
        let prev = remote.drop_last();
        let mid = pull_courses_spec(locals, prev, now);
        let rec = remote.last();
        let f = pull_courses_spec(locals, remote, now);
        let stamped = course_marked_synced(rec, now);
        let skip = course_pull_skips(mid.0, rec);
        let j = course_index(mid.0, rec.id@);
        lemma_course_index(mid.0, rec.id@);
        if !skip && j < 0 && i == mid.0.len() {
            assert(f.0[i] == stamped);
        } else if !skip && j == i {
            assert(f.0[i] == stamped);
        } else {
            assert(f.0[i] == mid.0[i]);
            lemma_pull_courses_stamped(locals, prev, now, i);
        }
    }
}

/// Each record a pull leaves in the store is either an original local
/// record, untouched, or carries the synced stamp of this run.
pub proof fn lemma_pull_todos_stamped(locals: Seq<Todo>, remote: Seq<Todo>, now: String, i: int)
    requires
        0 <= i < pull_todos_spec(locals, remote, now).0.len(),
    ensures
        ({
            let f = pull_todos_spec(locals, remote, now);
            (i < locals.len() && f.0[i] == locals[i]) || (f.0[i].sync_state == SyncState::Synced
                && f.0[i].last_synced_at == Some(now))
        }),
    decreases remote.len(),
{
    if remote.len() == 0 {
    } else {
        let prev = remote.drop_last();
        let mid = pull_todos_spec(locals, prev, now);
        let rec = remote.last();
        let f = pull_todos_spec(locals, remote, now);
        let stamped = todo_marked_synced(rec, now);
        let skip = todo_pull_skips(mid.0, rec);
        let j = todo_index(mid.0, rec.id@);
        lemma_todo_index(mid.0, rec.id@);
        if !skip && j < 0 && i == mid.0.len() {
            assert(f.0[i] == stamped);
        } else if !skip && j == i {
            assert(f.0[i] == stamped);
        } else {
            assert(f.0[i] == mid.0[i]);
            lemma_pull_todos_stamped(locals, prev, now, i);
        }
    }
}

/// What a pull leaves behind, for any batch. In particular: pending local
/// records are never touched (pending precedence), and a synced local record
/// newer than every remote record carrying its id is never touched
/// (timestamp precedence).
pub proof fn lemma_pull_courses_spec(locals: Seq<Course>, remote: Seq<Course>, now: String)
    requires
        course_ids_unique(locals),
    ensures
        ({
            let f = pull_courses_spec(locals, remote, now);
            &&& course_ids_unique(f.0)
            &&& f.0.len() >= locals.len()
            &&& f.1 >= 0
            &&& f.2 >= 0
            &&& f.1 + f.2 == remote.len()
            &&& forall|i: int| 0 <= i < locals.len() ==> f.0[i].id@ == locals[i].id@
            &&& course_pull_untouched_or_stamped(locals, f.0, now)
            &&& forall|i: int|
                0 <= i < locals.len() && locals[i].sync_state == SyncState::Pending ==> f.0[i]
                    == locals[i]
            &&& forall|i: int|
                0 <= i < locals.len() && locals[i].sync_state == SyncState::Synced && (forall|
                    m: int,
                |
                    0 <= m < remote.len() && remote[m].id@ == locals[i].id@
                        ==> course_local_newer(locals[i], remote[m])) ==> f.0[i] == locals[i]
        }),
    decreases remote.len(),
{
    if remote.len() == 0 {
    } else {
        let prev = remote.drop_last();
        lemma_pull_courses_spec(locals, prev, now);
        let mid = pull_courses_spec(locals, prev, now);
        let rec = remote.last();
        let f = pull_courses_spec(locals, remote, now);
        lemma_course_index(mid.0, rec.id@);
        let j = course_index(mid.0, rec.id@);
        let stamped = course_marked_synced(rec, now);
        let skip = course_pull_skips(mid.0, rec);
        assert(forall|m: int| 0 <= m < prev.len() ==> prev[m] == remote[m]);
        assert(stamped.id@ == rec.id@);

        // How one step relates f.0 to mid.0, index by index.
        assert(f.0.len() == if !skip && j < 0 {
            mid.0.len() as int + 1
        } else {
            mid.0.len() as int
        });
        assert forall|i: int| 0 <= i < mid.0.len() implies f.0[i] == (
        if !skip && j == i {
            stamped
        } else {
            mid.0[i]
        }) by {}
        assert(!skip && j < 0 ==> f.0[mid.0.len() as int] == stamped);

        // Untouched or freshly stamped.
        assert forall|i: int|
            0 <= i < f.0.len() implies ((i < locals.len() && f.0[i] == locals[i]) || (
        f.0[i].sync_state == SyncState::Synced && f.0[i].last_synced_at == Some(now))) by {
            lemma_pull_courses_stamped(locals, remote, now, i);
        }
        assert(course_pull_untouched_or_stamped(locals, f.0, now));

        // Uniqueness of ids in the result.
        assert forall|p: int, q: int| 0 <= p < q < f.0.len() implies f.0[p].id@ != f.0[q].id@ by {
            if skip || (p != j && q != j && q < mid.0.len()) {
                assert(mid.0[p].id@ != mid.0[q].id@);
            } else if j >= 0 {
                assert(mid.0[j].id@ == stamped.id@);
                assert(mid.0[p].id@ != mid.0[q].id@);
            } else {
                // appended: q is the new record, whose id matches nothing
                assert(f.0[q] == stamped);
                assert(f.0[p] == mid.0[p]);
            }
        }

        // Pending precedence.
        assert forall|i: int|
            0 <= i < locals.len() && locals[i].sync_state == SyncState::Pending implies f.0[i]
            == locals[i] by {
            assert(mid.0[i] == locals[i]);
            if !skip && j == i {
                assert(mid.0[j].sync_state == SyncState::Pending);
                assert(course_pull_skips(mid.0, rec));
                assert(false);
            }
        }

        // Timestamp precedence.
        assert forall|i: int|
            0 <= i < locals.len() && locals[i].sync_state == SyncState::Synced && (forall|m: int|
                0 <= m < remote.len() && remote[m].id@ == locals[i].id@ ==> course_local_newer(
                    locals[i],
                    remote[m],
                )) implies f.0[i] == locals[i] by {
            assert(forall|m: int|
                0 <= m < prev.len() && prev[m].id@ == locals[i].id@ ==> course_local_newer(
                    locals[i],
                    prev[m],
                ));
            assert(mid.0[i] == locals[i]);
            if !skip && j == i {
                assert(locals[i].id@ == rec.id@);
                assert(remote[remote.len() - 1] == rec);
                assert(course_local_newer(locals[i], rec));
                assert(course_pull_skips(mid.0, rec));
                assert(false);
            }
        }
    }
}

/// What a pull leaves behind, for any batch. In particular: pending local
/// records are never touched (pending precedence), and a synced local record
/// newer than every remote record carrying its id is never touched
/// (timestamp precedence).
pub proof fn lemma_pull_todos_spec(locals: Seq<Todo>, remote: Seq<Todo>, now: String)
    requires
        todo_ids_unique(locals),
    ensures
        ({
            let f = pull_todos_spec(locals, remote, now);
            &&& todo_ids_unique(f.0)
            &&& f.0.len() >= locals.len()
            &&& f.1 >= 0
            &&& f.2 >= 0
            &&& f.1 + f.2 == remote.len()
            &&& forall|i: int| 0 <= i < locals.len() ==> f.0[i].id@ == locals[i].id@
            &&& todo_pull_untouched_or_stamped(locals, f.0, now)
            &&& forall|i: int|
                0 <= i < locals.len() && locals[i].sync_state == SyncState::Pending ==> f.0[i]
                    == locals[i]
            &&& forall|i: int|
                0 <= i < locals.len() && locals[i].sync_state == SyncState::Synced && (forall|
                    m: int,
                |
                    0 <= m < remote.len() && remote[m].id@ == locals[i].id@
                        ==> todo_local_newer(locals[i], remote[m])) ==> f.0[i] == locals[i]
        }),
    decreases remote.len(),
{
    if remote.len() == 0 {
    } else {
        let prev = remote.drop_last();
        lemma_pull_todos_spec(locals, prev, now);
        let mid = pull_todos_spec(locals, prev, now);
        let rec = remote.last();
        let f = pull_todos_spec(locals, remote, now);
        lemma_todo_index(mid.0, rec.id@);
        let j = todo_index(mid.0, rec.id@);
        let stamped = todo_marked_synced(rec, now);
        let skip = todo_pull_skips(mid.0, rec);
        assert(forall|m: int| 0 <= m < prev.len() ==> prev[m] == remote[m]);
        assert(stamped.id@ == rec.id@);

        // How one step relates f.0 to mid.0, index by index.
        assert(f.0.len() == if !skip && j < 0 {
            mid.0.len() as int + 1
        } else {
            mid.0.len() as int
        });
        assert forall|i: int| 0 <= i < mid.0.len() implies f.0[i] == (
        if !skip && j == i {
            stamped
        } else {
            mid.0[i]
        }) by {}
        assert(!skip && j < 0 ==> f.0[mid.0.len() as int] == stamped);

        // Untouched or freshly stamped.
        assert forall|i: int|
            0 <= i < f.0.len() implies ((i < locals.len() && f.0[i] == locals[i]) || (
        f.0[i].sync_state == SyncState::Synced && f.0[i].last_synced_at == Some(now))) by {
            lemma_pull_todos_stamped(locals, remote, now, i);
        }
        assert(todo_pull_untouched_or_stamped(locals, f.0, now));

        // Uniqueness of ids in the result.
        assert forall|p: int, q: int| 0 <= p < q < f.0.len() implies f.0[p].id@ != f.0[q].id@ by {
            if skip || (p != j && q != j && q < mid.0.len()) {
                assert(mid.0[p].id@ != mid.0[q].id@);
            } else if j >= 0 {
                assert(mid.0[j].id@ == stamped.id@);
                assert(mid.0[p].id@ != mid.0[q].id@);
            } else {
                // appended: q is the new record, whose id matches nothing
                assert(f.0[q] == stamped);
                assert(f.0[p] == mid.0[p]);
            }
        }

        // Pending precedence.
        assert forall|i: int|
            0 <= i < locals.len() && locals[i].sync_state == SyncState::Pending implies f.0[i]
            == locals[i] by {
            assert(mid.0[i] == locals[i]);
            if !skip && j == i {
                assert(mid.0[j].sync_state == SyncState::Pending);
                assert(todo_pull_skips(mid.0, rec));
                assert(false);
            }
        }

        // Timestamp precedence.
        assert forall|i: int|
            0 <= i < locals.len() && locals[i].sync_state == SyncState::Synced && (forall|m: int|
                0 <= m < remote.len() && remote[m].id@ == locals[i].id@ ==> todo_local_newer(
                    locals[i],
                    remote[m],
                )) implies f.0[i] == locals[i] by {
            assert(forall|m: int|
                0 <= m < prev.len() && prev[m].id@ == locals[i].id@ ==> todo_local_newer(
                    locals[i],
                    prev[m],
                ));
            assert(mid.0[i] == locals[i]);
            if !skip && j == i {
                assert(locals[i].id@ == rec.id@);
                assert(remote[remote.len() - 1] == rec);
                assert(todo_local_newer(locals[i], rec));
                assert(todo_pull_skips(mid.0, rec));
                assert(false);
            }
        }
    }
}

// ---------------------------------------------------------------------------
// The pull phase, executable.
// ---------------------------------------------------------------------------

/// Merge a fetched remote batch into the local store under the conflict
/// policy, stamping every written record synced as of `now`. Returns the
/// pulled and skipped counts.
pub fn pull_courses(repo: &mut Repository, remote: &Vec<Course>, now: &String) -> (r: (
    usize,
    usize,
))
    requires
        old(repo).wf(),
    ensures
        final(repo).wf(),
        final(repo).spec_todos() == old(repo).spec_todos(),
        ({
            let f = pull_courses_spec(old(repo).spec_courses(), remote@, *now);
            final(repo).spec_courses() == f.0 && r.0 as int == f.1 && r.1 as int == f.2
        }),
        // Pending precedence: a pending local record is left untouched.
        forall|i: int|
            0 <= i < old(repo).spec_courses().len() && old(repo).spec_courses()[i].sync_state
                == SyncState::Pending ==> final(repo).spec_courses()[i] == old(repo).spec_courses()[i],
        // Timestamp precedence: a synced local record newer than every
        // remote record carrying its id is left untouched.
        forall|i: int|
            0 <= i < old(repo).spec_courses().len() && old(repo).spec_courses()[i].sync_state
                == SyncState::Synced && (forall|m: int|
                0 <= m < remote@.len() && remote@[m].id@ == old(repo).spec_courses()[i].id@
                    ==> course_local_newer(old(repo).spec_courses()[i], remote@[m])) ==> final(repo).spec_courses()[i] == old(repo).spec_courses()[i],
{
    let ghost locals = old(repo).spec_courses();
    let mut pulled: usize = 0;
    let mut skipped: usize = 0;
    let n = remote.len();
    let mut k: usize = 0;
    while k < n
        invariant
            repo.wf(),
            repo.spec_todos() == old(repo).spec_todos(),
            locals == old(repo).spec_courses(),
            n == remote@.len(),
            k <= n,
            pulled + skipped == k,
            ({
                let f = pull_courses_spec(locals, remote@.take(k as int), *now);
                repo.spec_courses() == f.0 && pulled as int == f.1 && skipped as int == f.2
            }),
        decreases n - k,
    {
        proof {
            assert(remote@.take((k + 1) as int).drop_last() =~= remote@.take(k as int));
            assert(remote@.take((k + 1) as int).last() == remote@[k as int]);
        }
        let rec = &remote[k];
        let existing = repo.find_course_by_id(rec.id.as_str());
        proof {
            lemma_course_index(repo.spec_courses(), rec.id@);
        }
        let skip = match &existing {
            Some(c) => {
                if c.sync_state == SyncState::Pending {
                    true
                } else {
                    match (parse_timestamp(c.updated_at.as_str()), parse_timestamp(
                        rec.updated_at.as_str(),
                    )) {
                        (Some(l), Some(r)) => l > r,
                        _ => false,
                    }
                }
            },
            None => false,
        };
        assert(skip == course_pull_skips(repo.spec_courses(), remote@[k as int]));
        if skip {
            skipped += 1;
        } else {
            let stamped = Course {
                id: rec.id.clone(),
                title: rec.title.clone(),
                semester: rec.semester.clone(),
                day_of_week: rec.day_of_week.clone(),
                period: rec.period,
                room: crate::repository::clone_opt_string(&rec.room),
                instructor: crate::repository::clone_opt_string(&rec.instructor),
                is_archived: rec.is_archived,
                updated_at: rec.updated_at.clone(),
                sync_state: SyncState::Synced,
                last_synced_at: Some(now.clone()),
            };
            assert(stamped == course_marked_synced(remote@[k as int], *now));
            repo.upsert_course(&stamped);
            pulled += 1;
        }
        k += 1;
    }
    proof {
        assert(remote@.take(n as int) =~= remote@);
        lemma_pull_courses_spec(locals, remote@, *now);
    }
    (pulled, skipped)
}

pub fn pull_todos(repo: &mut Repository, remote: &Vec<Todo>, now: &String) -> (r: (usize, usize))
    requires
        old(repo).wf(),
    ensures
        final(repo).wf(),
        final(repo).spec_courses() == old(repo).spec_courses(),
        ({
            let f = pull_todos_spec(old(repo).spec_todos(), remote@, *now);
            final(repo).spec_todos() == f.0 && r.0 as int == f.1 && r.1 as int == f.2
        }),
        forall|i: int|
            0 <= i < old(repo).spec_todos().len() && old(repo).spec_todos()[i].sync_state
                == SyncState::Pending ==> final(repo).spec_todos()[i] == old(repo).spec_todos()[i],
        forall|i: int|
            0 <= i < old(repo).spec_todos().len() && old(repo).spec_todos()[i].sync_state
                == SyncState::Synced && (forall|m: int|
                0 <= m < remote@.len() && remote@[m].id@ == old(repo).spec_todos()[i].id@
                    ==> todo_local_newer(old(repo).spec_todos()[i], remote@[m])) ==> final(repo).spec_todos()[i] == old(repo).spec_todos()[i],
{
    let ghost locals = old(repo).spec_todos();
    let mut pulled: usize = 0;
    let mut skipped: usize = 0;
    let n = remote.len();
    let mut k: usize = 0;
    while k < n
        invariant
            repo.wf(),
            repo.spec_courses() == old(repo).spec_courses(),
            locals == old(repo).spec_todos(),
            n == remote@.len(),
            k <= n,
            pulled + skipped == k,
            ({
                let f = pull_todos_spec(locals, remote@.take(k as int), *now);
                repo.spec_todos() == f.0 && pulled as int == f.1 && skipped as int == f.2
            }),
        decreases n - k,
    {
        proof {
            assert(remote@.take((k + 1) as int).drop_last() =~= remote@.take(k as int));
            assert(remote@.take((k + 1) as int).last() == remote@[k as int]);
        }
        let rec = &remote[k];
        let existing = repo.find_todo_by_id(rec.id.as_str());
        proof {
            lemma_todo_index(repo.spec_todos(), rec.id@);
        }
        let skip = match &existing {
            Some(t) => {
                if t.sync_state == SyncState::Pending {
                    true
                } else {
                    match (parse_timestamp(t.updated_at.as_str()), parse_timestamp(
                        rec.updated_at.as_str(),
                    )) {
                        (Some(l), Some(r)) => l > r,
                        _ => false,
                    }
                }
            },
            None => false,
        };
        assert(skip == todo_pull_skips(repo.spec_todos(), remote@[k as int]));
        if skip {
            skipped += 1;
        } else {
            let stamped = Todo {
                id: rec.id.clone(),
                course_id: rec.course_id.clone(),
                title: rec.title.clone(),
                due_date: rec.due_date.clone(),
                status: rec.status.clone(),
                completed_at: crate::repository::clone_opt_string(&rec.completed_at),
                is_archived: rec.is_archived,
                updated_at: rec.updated_at.clone(),
                sync_state: SyncState::Synced,
                last_synced_at: Some(now.clone()),
            };
            assert(stamped == todo_marked_synced(remote@[k as int], *now));
            repo.upsert_todo(&stamped);
            pulled += 1;
        }
        k += 1;
    }
    proof {
        assert(remote@.take(n as int) =~= remote@);
        lemma_pull_todos_spec(locals, remote@, *now);
    }
    (pulled, skipped)
}


// ---------------------------------------------------------------------------
// Archival-reconciliation.
// ---------------------------------------------------------------------------

/// Some record in the batch carries this id.
pub open spec fn id_in_courses(remote: Seq<Course>, id: Seq<char>) -> bool {
    exists|m: int| 0 <= m < remote.len() && remote[m].id@ == id
}

pub open spec fn id_in_todos(remote: Seq<Todo>, id: Seq<char>) -> bool {
    exists|m: int| 0 <= m < remote.len() && remote[m].id@ == id
}

/// Reconciliation raises the archived flag of every local record whose id is
/// absent from the fetched batch, and touches nothing else.
pub open spec fn archive_courses_spec(locals: Seq<Course>, remote: Seq<Course>) -> Seq<Course> {
    locals.map_values(
        |c: Course|
            if id_in_courses(remote, c.id@) {
                c
            } else {
                course_archived(c)
            },
    )
}

pub open spec fn archive_todos_spec(locals: Seq<Todo>, remote: Seq<Todo>) -> Seq<Todo> {
    locals.map_values(
        |t: Todo|
            if id_in_todos(remote, t.id@) {
                t
            } else {
                todo_archived(t)
            },
    )
}

fn course_id_in_batch(remote: &Vec<Course>, id: &str) -> (r: bool)
    ensures
        r == id_in_courses(remote@, id@),
{
    let n = remote.len();
    let mut m: usize = 0;
    while m < n
        invariant
            n == remote@.len(),
            m <= n,
            forall|j: int| 0 <= j < m ==> remote@[j].id@ != id@,
        decreases n - m,
    {
        if str_eq(remote[m].id.as_str(), id) {
            return true;
        }
        m += 1;
    }
    false
}

fn todo_id_in_batch(remote: &Vec<Todo>, id: &str) -> (r: bool)
    ensures
        r == id_in_todos(remote@, id@),
{
    let n = remote.len();
    let mut m: usize = 0;
    while m < n
        invariant
            n == remote@.len(),
            m <= n,
            forall|j: int| 0 <= j < m ==> remote@[j].id@ != id@,
        decreases n - m,
    {
        if str_eq(remote[m].id.as_str(), id) {
            return true;
        }
        m += 1;
    }
    false
}

/// Archive every local course whose id does not appear in the fetched batch:
/// a record that no longer exists upstream is treated as deleted upstream.
pub fn archive_courses_absent(repo: &mut Repository, remote: &Vec<Course>)
    requires
        old(repo).wf(),
    ensures
        final(repo).wf(),
        final(repo).spec_todos() == old(repo).spec_todos(),
        final(repo).spec_courses() == archive_courses_spec(old(repo).spec_courses(), remote@),
        // Archive on absence; presence leaves the record untouched.
        forall|i: int|
            0 <= i < old(repo).spec_courses().len() && !id_in_courses(
                remote@,
                old(repo).spec_courses()[i].id@,
            ) ==> final(repo).spec_courses()[i] == course_archived(old(repo).spec_courses()[i]),
        forall|i: int|
            0 <= i < old(repo).spec_courses().len() && id_in_courses(
                remote@,
                old(repo).spec_courses()[i].id@,
            ) ==> final(repo).spec_courses()[i] == old(repo).spec_courses()[i],
{
    let ghost locals = old(repo).spec_courses();
    let n = repo.course_count();
    let mut k: usize = 0;
    while k < n
        invariant
            repo.wf(),
            repo.spec_todos() == old(repo).spec_todos(),
            locals == old(repo).spec_courses(),
            n == locals.len(),
            repo.spec_courses().len() == n,
            k <= n,
            forall|j: int|
                0 <= j < k ==> repo.spec_courses()[j] == archive_courses_spec(locals, remote@)[j],
            forall|j: int| k <= j < n ==> repo.spec_courses()[j] == locals[j],
        decreases n - k,
    {
        let c = repo.course_at(k);
        if !course_id_in_batch(remote, c.id.as_str()) {
            repo.set_course_archived_at(k);
        }
        k += 1;
    }
    proof {
        assert(repo.spec_courses() =~= archive_courses_spec(locals, remote@));
    }
}

/// Archive every local task whose id does not appear in the fetched batch.
pub fn archive_todos_absent(repo: &mut Repository, remote: &Vec<Todo>)
    requires
        old(repo).wf(),
    ensures
        final(repo).wf(),
        final(repo).spec_courses() == old(repo).spec_courses(),
        final(repo).spec_todos() == archive_todos_spec(old(repo).spec_todos(), remote@),
        forall|i: int|
            0 <= i < old(repo).spec_todos().len() && !id_in_todos(
                remote@,
                old(repo).spec_todos()[i].id@,
            ) ==> final(repo).spec_todos()[i] == todo_archived(old(repo).spec_todos()[i]),
        forall|i: int|
            0 <= i < old(repo).spec_todos().len() && id_in_todos(
                remote@,
                old(repo).spec_todos()[i].id@,
            ) ==> final(repo).spec_todos()[i] == old(repo).spec_todos()[i],
{
    let ghost locals = old(repo).spec_todos();
    let n = repo.todo_count();
    let mut k: usize = 0;
    while k < n
        invariant
            repo.wf(),
            repo.spec_courses() == old(repo).spec_courses(),
            locals == old(repo).spec_todos(),
            n == locals.len(),
            repo.spec_todos().len() == n,
            k <= n,
            forall|j: int|
                0 <= j < k ==> repo.spec_todos()[j] == archive_todos_spec(locals, remote@)[j],
            forall|j: int| k <= j < n ==> repo.spec_todos()[j] == locals[j],
        decreases n - k,
    {
        let t = repo.todo_at(k);
        if !todo_id_in_batch(remote, t.id.as_str()) {
            repo.set_todo_archived_at(k);
        }
        k += 1;
    }
    proof {
        assert(repo.spec_todos() =~= archive_todos_spec(locals, remote@));
    }
}


// ---------------------------------------------------------------------------
// The push phase and the engine.
// ---------------------------------------------------------------------------

/// How many records the push phase owes a remote call: those not yet synced.
pub open spec fn course_unsynced_count(s: Seq<Course>) -> int
    decreases s.len(),
{
    if s.len() == 0 {
        0
    } else {
        course_unsynced_count(s.drop_last()) + if s.last().sync_state != SyncState::Synced {
            1int
        } else {
            0int
        }
    }
}

pub open spec fn todo_unsynced_count(s: Seq<Todo>) -> int
    decreases s.len(),
{
    if s.len() == 0 {
        0
    } else {
        todo_unsynced_count(s.drop_last()) + if s.last().sync_state != SyncState::Synced {
            1int
        } else {
            0int
        }
    }
}

/// How a pushed record relates to what it replaced: every field unchanged,
/// but now stamped synced as of the (unspecified) push time.
pub open spec fn course_pushed_rel(o: Course, c: Course) -> bool {
    &&& c.id == o.id
    &&& c.title == o.title
    &&& c.semester == o.semester
    &&& c.day_of_week == o.day_of_week
    &&& c.period == o.period
    &&& c.room == o.room
    &&& c.instructor == o.instructor
    &&& c.is_archived == o.is_archived
    &&& c.updated_at == o.updated_at
    &&& c.sync_state == SyncState::Synced
    &&& c.last_synced_at is Some
}

pub open spec fn todo_pushed_rel(o: Todo, t: Todo) -> bool {
    &&& t.id == o.id
    &&& t.course_id == o.course_id
    &&& t.title == o.title
    &&& t.due_date == o.due_date
    &&& t.status == o.status
    &&& t.completed_at == o.completed_at
    &&& t.is_archived == o.is_archived
    &&& t.updated_at == o.updated_at
    &&& t.sync_state == SyncState::Synced
    &&& t.last_synced_at is Some
}

/// What a push phase leaves behind, whether or not it ran to completion:
/// each record is untouched or freshly stamped, and a record already synced
/// is never touched — push is idempotent because it filters on sync-state.
pub open spec fn course_push_outcome(olds: Seq<Course>, news: Seq<Course>) -> bool {
    &&& news.len() == olds.len()
    &&& forall|i: int|
        0 <= i < olds.len() ==> (news[i] == olds[i] || (olds[i].sync_state != SyncState::Synced
            && course_pushed_rel(olds[i], news[i])))
    &&& forall|i: int|
        0 <= i < olds.len() && olds[i].sync_state == SyncState::Synced ==> news[i] == olds[i]
}

pub open spec fn todo_push_outcome(olds: Seq<Todo>, news: Seq<Todo>) -> bool {
    &&& news.len() == olds.len()
    &&& forall|i: int|
        0 <= i < olds.len() ==> (news[i] == olds[i] || (olds[i].sync_state != SyncState::Synced
            && todo_pushed_rel(olds[i], news[i])))
    &&& forall|i: int|
        0 <= i < olds.len() && olds[i].sync_state == SyncState::Synced ==> news[i] == olds[i]
}

pub open spec fn courses_all_synced(s: Seq<Course>) -> bool {
    forall|i: int| 0 <= i < s.len() ==> s[i].sync_state == SyncState::Synced
}

pub open spec fn todos_all_synced(s: Seq<Todo>) -> bool {
    forall|i: int| 0 <= i < s.len() ==> s[i].sync_state == SyncState::Synced
}

/// The sync engine, generic over the remote capability it drives.
pub struct SyncService<C: NotionClient> {
    client: C,
}

impl<C: NotionClient> SyncService<C> {
    pub fn new(client: C) -> SyncService<C> {
        SyncService { client }
    }

    fn push_courses(&self, repo: &mut Repository) -> (r: Result<usize, AppError>)
        requires
            old(repo).wf(),
        ensures
            final(repo).wf(),
            final(repo).spec_todos() == old(repo).spec_todos(),
            course_push_outcome(old(repo).spec_courses(), final(repo).spec_courses()),
            r is Ok ==> courses_all_synced(final(repo).spec_courses()),
            r is Ok ==> r->Ok_0 as int == course_unsynced_count(old(repo).spec_courses()),
            // Success is owed whenever nothing needs pushing: with every
            // record already synced, no remote call is made.
            courses_all_synced(old(repo).spec_courses()) ==> r is Ok,
    {
        let ghost olds = old(repo).spec_courses();
        let n = repo.course_count();
        let mut pushed: usize = 0;
        let mut k: usize = 0;
        while k < n
            invariant
                repo.wf(),
                repo.spec_todos() == old(repo).spec_todos(),
                olds == old(repo).spec_courses(),
                n == olds.len(),
                repo.spec_courses().len() == n,
                k <= n,
                pushed <= k,
                pushed as int == course_unsynced_count(olds.take(k as int)),
                forall|j: int| 0 <= j < k ==> repo.spec_courses()[j].sync_state
                    == SyncState::Synced,
                forall|j: int|
                    0 <= j < k ==> (repo.spec_courses()[j] == olds[j] || (olds[j].sync_state
                        != SyncState::Synced && course_pushed_rel(
                        olds[j],
                        repo.spec_courses()[j],
                    ))),
                forall|j: int|
                    0 <= j < k && olds[j].sync_state == SyncState::Synced
                        ==> repo.spec_courses()[j] == olds[j],
                forall|j: int| k <= j < n ==> repo.spec_courses()[j] == olds[j],
            decreases n - k,
        {
            proof {
                assert(olds.take((k + 1) as int).drop_last() =~= olds.take(k as int));
                assert(olds.take((k + 1) as int).last() == olds[k as int]);
            }
            let c = repo.course_at(k);
            if c.sync_state != SyncState::Synced {
                match self.client.push_course(&c) {
                    Ok(_) => {},
                    Err(e) => {
                        assert(course_push_outcome(olds, repo.spec_courses()));
                        assert(olds[k as int].sync_state != SyncState::Synced);
                        return Err(e);
                    },
                }
                let now = now_rfc3339();
                repo.mark_course_synced_at(k, &now);
                pushed += 1;
            }
            k += 1;
        }
        proof {
            assert(olds.take(n as int) =~= olds);
        }
        Ok(pushed)
    }

    fn push_todos(&self, repo: &mut Repository) -> (r: Result<usize, AppError>)
        requires
            old(repo).wf(),
        ensures
            final(repo).wf(),
            final(repo).spec_courses() == old(repo).spec_courses(),
            todo_push_outcome(old(repo).spec_todos(), final(repo).spec_todos()),
            r is Ok ==> todos_all_synced(final(repo).spec_todos()),
            r is Ok ==> r->Ok_0 as int == todo_unsynced_count(old(repo).spec_todos()),
            // Success is owed whenever nothing needs pushing.
            todos_all_synced(old(repo).spec_todos()) ==> r is Ok,
    {
        let ghost olds = old(repo).spec_todos();
        let n = repo.todo_count();
        let mut pushed: usize = 0;
        let mut k: usize = 0;
        while k < n
            invariant
                repo.wf(),
                repo.spec_courses() == old(repo).spec_courses(),
                olds == old(repo).spec_todos(),
                n == olds.len(),
                repo.spec_todos().len() == n,
                k <= n,
                pushed <= k,
                pushed as int == todo_unsynced_count(olds.take(k as int)),
                forall|j: int| 0 <= j < k ==> repo.spec_todos()[j].sync_state == SyncState::Synced,
                forall|j: int|
                    0 <= j < k ==> (repo.spec_todos()[j] == olds[j] || (olds[j].sync_state
                        != SyncState::Synced && todo_pushed_rel(olds[j], repo.spec_todos()[j]))),
                forall|j: int|
                    0 <= j < k && olds[j].sync_state == SyncState::Synced ==> repo.spec_todos()[j]
                        == olds[j],
                forall|j: int| k <= j < n ==> repo.spec_todos()[j] == olds[j],
            decreases n - k,
        {
            proof {
                assert(olds.take((k + 1) as int).drop_last() =~= olds.take(k as int));
                assert(olds.take((k + 1) as int).last() == olds[k as int]);
            }
            let t = repo.todo_at(k);
            if t.sync_state != SyncState::Synced {
                match self.client.push_todo(&t) {
                    Ok(_) => {},
                    Err(e) => {
                        assert(todo_push_outcome(olds, repo.spec_todos()));
                        assert(olds[k as int].sync_state != SyncState::Synced);
                        return Err(e);
                    },
                }
                let now = now_rfc3339();
                repo.mark_todo_synced_at(k, &now);
                pushed += 1;
            }
            k += 1;
        }
        proof {
            assert(olds.take(n as int) =~= olds);
        }
        Ok(pushed)
    }

    /// Push phase: every record whose sync-state is not synced is written to
    /// the remote service and stamped synced; records already synced cause no
    /// remote call and are untouched. A failure aborts the phase, but what
    /// was pushed so far stays synced, so the run is resumable.
    pub fn push_local_changes_to_notion(&self, repo: &mut Repository) -> (r: Result<
        (usize, usize),
        AppError,
    >)
        requires
            old(repo).wf(),
        ensures
            final(repo).wf(),
            course_push_outcome(old(repo).spec_courses(), final(repo).spec_courses()),
            todo_push_outcome(old(repo).spec_todos(), final(repo).spec_todos()),
            r is Ok ==> {
                &&& courses_all_synced(final(repo).spec_courses())
                &&& todos_all_synced(final(repo).spec_todos())
                &&& r->Ok_0.0 as int == course_unsynced_count(old(repo).spec_courses())
                &&& r->Ok_0.1 as int == todo_unsynced_count(old(repo).spec_todos())
            },
            // Success is owed whenever nothing needs pushing in either kind.
            courses_all_synced(old(repo).spec_courses()) && todos_all_synced(
                old(repo).spec_todos(),
            ) ==> r is Ok,
    {
        let pushed_courses = match self.push_courses(repo) {
            Ok(n) => n,
            Err(e) => {
                assert(todo_push_outcome(old(repo).spec_todos(), repo.spec_todos()));
                return Err(e);
            },
        };
        let pushed_todos = match self.push_todos(repo) {
            Ok(n) => n,
            Err(e) => {
                return Err(e);
            },
        };
        Ok((pushed_courses, pushed_todos))
    }
}


// ---------------------------------------------------------------------------
// Pull and reconciliation combined, and the full run.
// ---------------------------------------------------------------------------

/// What one kind's pull-then-reconcile pass guarantees, whatever batch the
/// remote service returned: ids of existing records are stable, a pending
/// record is at most archived (never overwritten), and every record either
/// carries a fresh synced stamp or inherits its sync bookkeeping unchanged.
pub open spec fn course_pull_reconcile_rel(olds: Seq<Course>, news: Seq<Course>) -> bool {
    &&& news.len() >= olds.len()
    &&& forall|i: int| 0 <= i < olds.len() ==> news[i].id@ == olds[i].id@
    &&& forall|i: int|
        0 <= i < olds.len() && olds[i].sync_state == SyncState::Pending ==> (news[i] == olds[i]
            || news[i] == course_archived(olds[i]))
    &&& forall|i: int|
        0 <= i < news.len() ==> ((news[i].sync_state == SyncState::Synced
            && news[i].last_synced_at is Some) || (i < olds.len() && news[i].sync_state
            == olds[i].sync_state && news[i].last_synced_at == olds[i].last_synced_at))
}

pub open spec fn todo_pull_reconcile_rel(olds: Seq<Todo>, news: Seq<Todo>) -> bool {
    &&& news.len() >= olds.len()
    &&& forall|i: int| 0 <= i < olds.len() ==> news[i].id@ == olds[i].id@
    &&& forall|i: int|
        0 <= i < olds.len() && olds[i].sync_state == SyncState::Pending ==> (news[i] == olds[i]
            || news[i] == todo_archived(olds[i]))
    &&& forall|i: int|
        0 <= i < news.len() ==> ((news[i].sync_state == SyncState::Synced
            && news[i].last_synced_at is Some) || (i < olds.len() && news[i].sync_state
            == olds[i].sync_state && news[i].last_synced_at == olds[i].last_synced_at))
}

impl<C: NotionClient> SyncService<C> {
    /// Pull phase and archival-reconciliation for courses: fetch the remote
    /// batch, merge it under the conflict policy, then archive every local
    /// course absent from the batch. Returns the pulled and skipped counts.
    pub fn sync_courses_from_notion(&self, repo: &mut Repository) -> (r: Result<
        (usize, usize),
        AppError,
    >)
        requires
            old(repo).wf(),
        ensures
            final(repo).wf(),
            final(repo).spec_todos() == old(repo).spec_todos(),
            r is Err ==> final(repo).spec_courses() == old(repo).spec_courses(),
            r is Ok ==> course_pull_reconcile_rel(
                old(repo).spec_courses(),
                final(repo).spec_courses(),
            ),
    {
        let remote = match self.client.fetch_courses() {
            Ok(v) => v,
            Err(e) => {
                return Err(e);
            },
        };
        let ghost olds = old(repo).spec_courses();
        let now = now_rfc3339();
        let counts = pull_courses(repo, &remote, &now);
        let ghost mid = repo.spec_courses();
        proof {
            lemma_pull_courses_spec(olds, remote@, now);
        }
        archive_courses_absent(repo, &remote);
        proof {
            let news = repo.spec_courses();
            assert forall|i: int|
                0 <= i < news.len() implies ((news[i].sync_state == SyncState::Synced
                && news[i].last_synced_at is Some) || (i < olds.len() && news[i].sync_state
                == olds[i].sync_state && news[i].last_synced_at == olds[i].last_synced_at)) by {
                assert(news[i] == archive_courses_spec(mid, remote@)[i]);
                assert(news[i] == mid[i] || news[i] == course_archived(mid[i]));
                assert((i < olds.len() && mid[i] == olds[i]) || (mid[i].sync_state
                    == SyncState::Synced && mid[i].last_synced_at == Some(now)));
            }
            assert forall|i: int|
                0 <= i < olds.len() && olds[i].sync_state == SyncState::Pending implies (
            repo.spec_courses()[i] == olds[i] || repo.spec_courses()[i] == course_archived(
                olds[i],
            )) by {
                assert(mid[i] == olds[i]);
                assert(repo.spec_courses()[i] == mid[i] || repo.spec_courses()[i]
                    == course_archived(mid[i]));
            }
            assert forall|i: int| 0 <= i < olds.len() implies repo.spec_courses()[i].id@
                == olds[i].id@ by {
                assert(repo.spec_courses()[i] == mid[i] || repo.spec_courses()[i]
                    == course_archived(mid[i]));
                assert(mid[i].id@ == olds[i].id@);
            }
        }
        Ok(counts)
    }

    /// Pull phase and archival-reconciliation for tasks.
    pub fn sync_todos_from_notion(&self, repo: &mut Repository) -> (r: Result<
        (usize, usize),
        AppError,
    >)
        requires
            old(repo).wf(),
        ensures
            final(repo).wf(),
            final(repo).spec_courses() == old(repo).spec_courses(),
            r is Err ==> final(repo).spec_todos() == old(repo).spec_todos(),
            r is Ok ==> todo_pull_reconcile_rel(old(repo).spec_todos(), final(repo).spec_todos()),
    {
        let remote = match self.client.fetch_todos() {
            Ok(v) => v,
            Err(e) => {
                return Err(e);
            },
        };
        let ghost olds = old(repo).spec_todos();
        let now = now_rfc3339();
        let counts = pull_todos(repo, &remote, &now);
        let ghost mid = repo.spec_todos();
        proof {
            lemma_pull_todos_spec(olds, remote@, now);
        }
        archive_todos_absent(repo, &remote);
        proof {
            let news = repo.spec_todos();
            assert forall|i: int|
                0 <= i < news.len() implies ((news[i].sync_state == SyncState::Synced
                && news[i].last_synced_at is Some) || (i < olds.len() && news[i].sync_state
                == olds[i].sync_state && news[i].last_synced_at == olds[i].last_synced_at)) by {
                assert(news[i] == archive_todos_spec(mid, remote@)[i]);
                assert(news[i] == mid[i] || news[i] == todo_archived(mid[i]));
                assert((i < olds.len() && mid[i] == olds[i]) || (mid[i].sync_state
                    == SyncState::Synced && mid[i].last_synced_at == Some(now)));
            }
            assert forall|i: int|
                0 <= i < olds.len() && olds[i].sync_state == SyncState::Pending implies (
            repo.spec_todos()[i] == olds[i] || repo.spec_todos()[i] == todo_archived(
                olds[i],
            )) by {
                assert(mid[i] == olds[i]);
                assert(repo.spec_todos()[i] == mid[i] || repo.spec_todos()[i] == todo_archived(
                    mid[i],
                ));
            }
            assert forall|i: int| 0 <= i < olds.len() implies repo.spec_todos()[i].id@
                == olds[i].id@ by {
                assert(repo.spec_todos()[i] == mid[i] || repo.spec_todos()[i] == todo_archived(
                    mid[i],
                ));
                assert(mid[i].id@ == olds[i].id@);
            }
        }
        Ok(counts)
    }
}

/// What a full successful run leaves of one kind: every record synced, ids
/// of pre-existing records stable, and every record that had local changes
/// now carries a last-synced time.
pub open spec fn course_sync_all_rel(olds: Seq<Course>, news: Seq<Course>) -> bool {
    &&& news.len() >= olds.len()
    &&& courses_all_synced(news)
    &&& forall|i: int| 0 <= i < olds.len() ==> news[i].id@ == olds[i].id@
    &&& forall|i: int|
        0 <= i < olds.len() && olds[i].sync_state != SyncState::Synced
            ==> news[i].last_synced_at is Some
}

pub open spec fn todo_sync_all_rel(olds: Seq<Todo>, news: Seq<Todo>) -> bool {
    &&& news.len() >= olds.len()
    &&& todos_all_synced(news)
    &&& forall|i: int| 0 <= i < olds.len() ==> news[i].id@ == olds[i].id@
    &&& forall|i: int|
        0 <= i < olds.len() && olds[i].sync_state != SyncState::Synced
            ==> news[i].last_synced_at is Some
}

impl<C: NotionClient> SyncService<C> {
    /// One full run: push all local changes, then pull and reconcile courses,
    /// then pull and reconcile tasks — push first, so the engine does not
    /// immediately re-pull what it just pushed. A failure anywhere aborts the
    /// run; per-record sync-state makes the next run resume where this one
    /// stopped.
    pub fn sync_all(&self, repo: &mut Repository) -> (r: Result<SyncStats, AppError>)
        requires
            old(repo).wf(),
        ensures
            final(repo).wf(),
            r is Ok ==> {
                &&& course_sync_all_rel(old(repo).spec_courses(), final(repo).spec_courses())
                &&& todo_sync_all_rel(old(repo).spec_todos(), final(repo).spec_todos())
                &&& r->Ok_0.courses_pushed as int == course_unsynced_count(
                    old(repo).spec_courses(),
                )
                &&& r->Ok_0.todos_pushed as int == todo_unsynced_count(old(repo).spec_todos())
            },
            // An aborted run still leaves per-record state the next run can
            // resume from: tasks have only ever been pushed, and courses have
            // been pushed and at most pulled and reconciled once.
            r is Err ==> todo_push_outcome(old(repo).spec_todos(), final(repo).spec_todos()),
            r is Err ==> (course_push_outcome(
                old(repo).spec_courses(),
                final(repo).spec_courses(),
            ) || (exists|mid: Seq<Course>|
                course_push_outcome(old(repo).spec_courses(), mid) && course_pull_reconcile_rel(
                    mid,
                    final(repo).spec_courses(),
                ))),
    {
        let ghost oldc = old(repo).spec_courses();
        let ghost oldt = old(repo).spec_todos();
        let (courses_pushed, todos_pushed) = match self.push_local_changes_to_notion(repo) {
            Ok(p) => p,
            Err(e) => {
                return Err(e);
            },
        };
        let ghost midc = repo.spec_courses();
        let ghost midt = repo.spec_todos();
        let (courses_pulled, courses_skipped) = match self.sync_courses_from_notion(repo) {
            Ok(p) => p,
            Err(e) => {
                return Err(e);
            },
        };
        let ghost midc2 = repo.spec_courses();
        let (todos_pulled, todos_skipped) = match self.sync_todos_from_notion(repo) {
            Ok(p) => p,
            Err(e) => {
                proof {
                    assert(course_push_outcome(oldc, midc));
                    assert(course_pull_reconcile_rel(midc, repo.spec_courses()));
                    assert(exists|mid: Seq<Course>|
                        course_push_outcome(oldc, mid) && course_pull_reconcile_rel(
                            mid,
                            repo.spec_courses(),
                        ));
                }
                return Err(e);
            },
        };
        proof {
            let newc = repo.spec_courses();
            let newt = repo.spec_todos();
            assert(newc == midc2);
            assert forall|i: int| 0 <= i < newc.len() implies newc[i].sync_state
                == SyncState::Synced by {
                assert((newc[i].sync_state == SyncState::Synced && newc[i].last_synced_at is Some)
                    || (i < midc.len() && newc[i].sync_state == midc[i].sync_state
                    && newc[i].last_synced_at == midc[i].last_synced_at));
            }
            assert forall|i: int| 0 <= i < newt.len() implies newt[i].sync_state
                == SyncState::Synced by {
                assert((newt[i].sync_state == SyncState::Synced && newt[i].last_synced_at is Some)
                    || (i < midt.len() && newt[i].sync_state == midt[i].sync_state
                    && newt[i].last_synced_at == midt[i].last_synced_at));
            }
            assert forall|i: int| 0 <= i < oldc.len() implies newc[i].id@ == oldc[i].id@ by {
                assert(midc[i] == oldc[i] || course_pushed_rel(oldc[i], midc[i]));
                assert(midc[i].id@ == oldc[i].id@);
                assert(newc[i].id@ == midc[i].id@);
            }
            assert forall|i: int| 0 <= i < oldt.len() implies newt[i].id@ == oldt[i].id@ by {
                assert(midt[i] == oldt[i] || todo_pushed_rel(oldt[i], midt[i]));
                assert(midt[i].id@ == oldt[i].id@);
                assert(newt[i].id@ == midt[i].id@);
            }
            assert forall|i: int|
                0 <= i < oldc.len() && oldc[i].sync_state != SyncState::Synced
                implies newc[i].last_synced_at is Some by {
                assert(course_pushed_rel(oldc[i], midc[i]));
                assert((newc[i].sync_state == SyncState::Synced && newc[i].last_synced_at is Some)
                    || (i < midc.len() && newc[i].sync_state == midc[i].sync_state
                    && newc[i].last_synced_at == midc[i].last_synced_at));
            }
            assert forall|i: int|
                0 <= i < oldt.len() && oldt[i].sync_state != SyncState::Synced
                implies newt[i].last_synced_at is Some by {
                assert(todo_pushed_rel(oldt[i], midt[i]));
                assert((newt[i].sync_state == SyncState::Synced && newt[i].last_synced_at is Some)
                    || (i < midt.len() && newt[i].sync_state == midt[i].sync_state
                    && newt[i].last_synced_at == midt[i].last_synced_at));
            }
        }
        Ok(
            SyncStats {
                courses_pushed,
                courses_pulled,
                courses_skipped,
                todos_pushed,
                todos_pulled,
                todos_skipped,
            },
        )
    }
}


// ---------------------------------------------------------------------------
// The conflict-policy laws, each stated on its own.
// ---------------------------------------------------------------------------

/// Pending precedence: over any remote batch, the pull phase leaves a
/// pending local record exactly as it was — title, state and all.
pub proof fn lemma_pull_pending_precedence_course(
    locals: Seq<Course>,
    remote: Seq<Course>,
    now: String,
    i: int,
)
    requires
        course_ids_unique(locals),
        0 <= i < locals.len(),
        locals[i].sync_state == SyncState::Pending,
    ensures
        pull_courses_spec(locals, remote, now).0[i] == locals[i],
{
    lemma_pull_courses_spec(locals, remote, now);
}

pub proof fn lemma_pull_pending_precedence_todo(
    locals: Seq<Todo>,
    remote: Seq<Todo>,
    now: String,
    i: int,
)
    requires
        todo_ids_unique(locals),
        0 <= i < locals.len(),
        locals[i].sync_state == SyncState::Pending,
    ensures
        pull_todos_spec(locals, remote, now).0[i] == locals[i],
{
    lemma_pull_todos_spec(locals, remote, now);
}

/// Timestamp precedence: a synced local record modified strictly after
/// every remote record carrying its id is never overwritten by the pull.
pub proof fn lemma_pull_timestamp_precedence_course(
    locals: Seq<Course>,
    remote: Seq<Course>,
    now: String,
    i: int,
)
    requires
        course_ids_unique(locals),
        0 <= i < locals.len(),
        locals[i].sync_state == SyncState::Synced,
        forall|m: int|
            0 <= m < remote.len() && remote[m].id@ == locals[i].id@ ==> course_local_newer(
                locals[i],
                remote[m],
            ),
    ensures
        pull_courses_spec(locals, remote, now).0[i] == locals[i],
{
    lemma_pull_courses_spec(locals, remote, now);
}

pub proof fn lemma_pull_timestamp_precedence_todo(
    locals: Seq<Todo>,
    remote: Seq<Todo>,
    now: String,
    i: int,
)
    requires
        todo_ids_unique(locals),
        0 <= i < locals.len(),
        locals[i].sync_state == SyncState::Synced,
        forall|m: int|
            0 <= m < remote.len() && remote[m].id@ == locals[i].id@ ==> todo_local_newer(
                locals[i],
                remote[m],
            ),
    ensures
        pull_todos_spec(locals, remote, now).0[i] == locals[i],
{
    lemma_pull_todos_spec(locals, remote, now);
}

/// Archive on absence: after reconciliation, a local record whose id is not
/// in the fetched batch carries the archived flag and nothing else changes;
/// a record whose id is present is untouched.
pub proof fn lemma_reconcile_archives_absent_course(
    locals: Seq<Course>,
    remote: Seq<Course>,
    i: int,
)
    requires
        0 <= i < locals.len(),
    ensures
        !id_in_courses(remote, locals[i].id@) ==> archive_courses_spec(locals, remote)[i]
            == course_archived(locals[i]),
        id_in_courses(remote, locals[i].id@) ==> archive_courses_spec(locals, remote)[i]
            == locals[i],
{
}

pub proof fn lemma_reconcile_archives_absent_todo(locals: Seq<Todo>, remote: Seq<Todo>, i: int)
    requires
        0 <= i < locals.len(),
    ensures
        !id_in_todos(remote, locals[i].id@) ==> archive_todos_spec(locals, remote)[i]
            == todo_archived(locals[i]),
        id_in_todos(remote, locals[i].id@) ==> archive_todos_spec(locals, remote)[i] == locals[i],
{
}

/// Idempotence of push: whatever a push phase did, a record that was
/// already synced came through it untouched — the phase filters on
/// sync-state before it ever reaches for the remote service.
pub proof fn lemma_push_leaves_synced_untouched_course(
    olds: Seq<Course>,
    news: Seq<Course>,
    i: int,
)
    requires
        course_push_outcome(olds, news),
        0 <= i < olds.len(),
        olds[i].sync_state == SyncState::Synced,
    ensures
        news[i] == olds[i],
{
}

pub proof fn lemma_push_leaves_synced_untouched_todo(olds: Seq<Todo>, news: Seq<Todo>, i: int)
    requires
        todo_push_outcome(olds, news),
        0 <= i < olds.len(),
        olds[i].sync_state == SyncState::Synced,
    ensures
        news[i] == olds[i],
{
}

} // verus!
