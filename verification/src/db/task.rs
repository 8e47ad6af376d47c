//! Repository operations of the task table: list (optionally filtered by
//! owning skill), lookup, create, update and delete. Every task mutation
//! touches the owning skill and that skill's character with the same
//! timestamp as the mutation itself; parents are looked up before a delete
//! removes the row that names them.

use vstd::prelude::*;

use crate::db::character::{chars_touched, touch as touch_character};
use crate::db::skill::{skills_touched, touch as touch_skill};
use crate::db::{same_counters, task_row_wf, Db};
use crate::model::skill::{has_skill, lemma_skill_of, skill_of};
use crate::model::task::{
    has_task, lemma_task_of, task_index, task_of, unique_task_ids, Task, TaskFields, TaskList,
};
use crate::util::{IdType, TimeType};
use crate::AppError;

verus! {

/// The task table after the row with the given id (if any) is removed; order
/// of the remaining rows is kept.
pub open spec fn tasks_without(s: Seq<Task>, id: IdType) -> Seq<Task>
    decreases s.len(),
{
    if s.len() == 0 {
        Seq::empty()
    } else {
        let rest = tasks_without(s.drop_last(), id);
        if s.last().id != id {
            rest.push(s.last())
        } else {
            rest
        }
    }
}

/// The tasks owned by the given skill, in table order.
pub open spec fn tasks_of_skill(s: Seq<Task>, skill_id: IdType) -> Seq<Task>
    decreases s.len(),
{
    if s.len() == 0 {
        Seq::empty()
    } else {
        let rest = tasks_of_skill(s.drop_last(), skill_id);
        if s.last().skill_id == skill_id {
            rest.push(s.last())
        } else {
            rest
        }
    }
}

/// The task table after every task of the given skill is removed.
pub open spec fn tasks_without_skill(s: Seq<Task>, skill_id: IdType) -> Seq<Task>
    decreases s.len(),
{
    if s.len() == 0 {
        Seq::empty()
    } else {
        let rest = tasks_without_skill(s.drop_last(), skill_id);
        if s.last().skill_id != skill_id {
            rest.push(s.last())
        } else {
            rest
        }
    }
}

/// Membership in `tasks_without`: exactly the rows whose id differs.
pub proof fn lemma_tasks_without_contains(s: Seq<Task>, id: IdType)
    ensures
        forall|x: Task| #[trigger]
            tasks_without(s, id).contains(x) <==> (s.contains(x) && x.id != id),
    decreases s.len(),
{
    if s.len() == 0 {
    } else {
        let pre = s.drop_last();
        let rest = tasks_without(pre, id);
        lemma_tasks_without_contains(pre, id);
        assert forall|x: Task| #[trigger]
            tasks_without(s, id).contains(x) implies (s.contains(x) && x.id != id) by {
            if s.last().id != id && x == s.last() {
                assert(s[s.len() - 1] == x);
            } else {
                assert(rest.contains(x));
                assert(pre.contains(x));
                let i = choose|i: int| 0 <= i < pre.len() && pre[i] == x;
                assert(s[i] == x);
            }
        }
        assert forall|x: Task| s.contains(x) && x.id != id implies #[trigger]
            tasks_without(s, id).contains(x) by {
            let i = choose|i: int| 0 <= i < s.len() && s[i] == x;
            if i < s.len() - 1 {
                assert(pre[i] == x);
                assert(pre.contains(x));
                assert(rest.contains(x));
                if s.last().id != id {
                    let j = choose|j: int| 0 <= j < rest.len() && rest[j] == x;
                    assert(rest.push(s.last())[j] == x);
                }
            } else {
                assert(x == s.last());
                assert(rest.push(s.last())[rest.len() as int] == x);
            }
        }
    }
}

/// Which ids `tasks_without` carries.
pub proof fn lemma_tasks_without_has(s: Seq<Task>, id: IdType, other: IdType)
    ensures
        has_task(tasks_without(s, id), other) <==> (has_task(s, other) && other != id),
{
    lemma_tasks_without_contains(s, id);
    let out = tasks_without(s, id);
    if has_task(out, other) {
        let i = choose|i: int| 0 <= i < out.len() && out[i].id == other;
        assert(out.contains(out[i]));
        let x = out[i];
        let j = choose|j: int| 0 <= j < s.len() && s[j] == x;
        assert(s[j].id == other);
    }
    if has_task(s, other) && other != id {
        let i = choose|i: int| 0 <= i < s.len() && s[i].id == other;
        assert(s.contains(s[i]));
        assert(out.contains(s[i]));
        let j = choose|j: int| 0 <= j < out.len() && out[j] == s[i];
        assert(out[j].id == other);
    }
}

/// Removal by id keeps the remaining ids unique.
pub proof fn lemma_tasks_without_unique(s: Seq<Task>, id: IdType)
    requires
        unique_task_ids(s),
    ensures
        unique_task_ids(tasks_without(s, id)),
    decreases s.len(),
{
    if s.len() == 0 {
    } else {
        let pre = s.drop_last();
        let rest = tasks_without(pre, id);
        assert(unique_task_ids(pre));
        lemma_tasks_without_unique(pre, id);
        lemma_tasks_without_contains(pre, id);
        if s.last().id != id {
            assert forall|j: int| 0 <= j < rest.len() implies rest[j].id != s.last().id by {
                assert(rest.contains(rest[j]));
                assert(pre.contains(rest[j]));
                let i = choose|i: int| 0 <= i < pre.len() && pre[i] == rest[j];
                assert(s[i].id != s[s.len() - 1].id);
            }
            let out = rest.push(s.last());
            assert forall|i: int, j: int|
                0 <= i < out.len() && 0 <= j < out.len() && i != j implies out[i].id
                != out[j].id by {
                if i < rest.len() && j < rest.len() {
                    assert(out[i] == rest[i]);
                    assert(out[j] == rest[j]);
                }
            }
        }
    }
}

/// Membership in `tasks_without_skill`: exactly the rows owned by another
/// skill.
pub proof fn lemma_tasks_without_skill_contains(s: Seq<Task>, skill_id: IdType)
    ensures
        forall|x: Task| #[trigger]
            tasks_without_skill(s, skill_id).contains(x) <==> (s.contains(x) && x.skill_id
                != skill_id),
    decreases s.len(),
{
    if s.len() == 0 {
    } else {
        let pre = s.drop_last();
        let rest = tasks_without_skill(pre, skill_id);
        lemma_tasks_without_skill_contains(pre, skill_id);
        assert forall|x: Task| #[trigger]
            tasks_without_skill(s, skill_id).contains(x) implies (s.contains(x) && x.skill_id
            != skill_id) by {
            if s.last().skill_id != skill_id && x == s.last() {
                assert(s[s.len() - 1] == x);
            } else {
                assert(rest.contains(x));
                assert(pre.contains(x));
                let i = choose|i: int| 0 <= i < pre.len() && pre[i] == x;
                assert(s[i] == x);
            }
        }
        assert forall|x: Task| s.contains(x) && x.skill_id != skill_id implies #[trigger]
            tasks_without_skill(s, skill_id).contains(x) by {
            let i = choose|i: int| 0 <= i < s.len() && s[i] == x;
            if i < s.len() - 1 {
                assert(pre[i] == x);
                assert(pre.contains(x));
                assert(rest.contains(x));
                if s.last().skill_id != skill_id {
                    let j = choose|j: int| 0 <= j < rest.len() && rest[j] == x;
                    assert(rest.push(s.last())[j] == x);
                }
            } else {
                assert(x == s.last());
                assert(rest.push(s.last())[rest.len() as int] == x);
            }
        }
    }
}

/// The cascade keeps the remaining task ids unique.
pub proof fn lemma_tasks_without_skill_unique(s: Seq<Task>, skill_id: IdType)
    requires
        unique_task_ids(s),
    ensures
        unique_task_ids(tasks_without_skill(s, skill_id)),
    decreases s.len(),
{
    if s.len() == 0 {
    } else {
        let pre = s.drop_last();
        let rest = tasks_without_skill(pre, skill_id);
        assert(unique_task_ids(pre));
        lemma_tasks_without_skill_unique(pre, skill_id);
        lemma_tasks_without_skill_contains(pre, skill_id);
        if s.last().skill_id != skill_id {
            assert forall|j: int| 0 <= j < rest.len() implies rest[j].id != s.last().id by {
                assert(rest.contains(rest[j]));
                assert(pre.contains(rest[j]));
                let i = choose|i: int| 0 <= i < pre.len() && pre[i] == rest[j];
                assert(s[i].id != s[s.len() - 1].id);
            }
            let out = rest.push(s.last());
            assert forall|i: int, j: int|
                0 <= i < out.len() && 0 <= j < out.len() && i != j implies out[i].id
                != out[j].id by {
                if i < rest.len() && j < rest.len() {
                    assert(out[i] == rest[i]);
                    assert(out[j] == rest[j]);
                }
            }
        }
    }
}

/// Finds the index of the row with the given id, if there is one.
fn find_task_index(rows: &Vec<Task>, id: IdType) -> (r: Option<usize>)
    ensures
        match r {
            Some(i) => i < rows@.len() && rows@[i as int].id == id,
            None => !has_task(rows@, id),
        },
{
    let mut i: usize = 0;
    while i < rows.len()
        invariant
            i <= rows@.len(),
            forall|j: int| 0 <= j < i ==> rows@[j].id != id,
        decreases rows@.len() - i,
    {
        if rows[i].id == id {
            return Some(i);
        }
        i += 1;
    }
    None
}

/// Lists tasks, all of them or only those of one skill, in table order.
pub fn get_task_list(db: &Db, skill_id: Option<IdType>) -> (r: TaskList)
    ensures
        match skill_id {
            Some(sid) => r.0@ == tasks_of_skill(db.tasks@, sid),
            None => r.0@ == db.tasks@,
        },
{
    let mut rows: Vec<Task> = Vec::new();
    match skill_id {
        Some(sid) => {
            let mut i: usize = 0;
            while i < db.tasks.len()
                invariant
                    i <= db.tasks@.len(),
                    rows@ == tasks_of_skill(db.tasks@.subrange(0, i as int), sid),
                decreases db.tasks@.len() - i,
            {
                let ghost prefix = db.tasks@.subrange(0, i as int);
                if db.tasks[i].skill_id == sid {
                    rows.push(db.tasks[i].clone());
                }
                proof {
                    assert(db.tasks@.subrange(0, i as int + 1) =~= prefix.push(
                        db.tasks@[i as int],
                    ));
                    assert(db.tasks@.subrange(0, i as int + 1).drop_last() =~= prefix);
                }
                i += 1;
            }
            proof {
                assert(db.tasks@.subrange(0, db.tasks@.len() as int) =~= db.tasks@);
            }
            TaskList(rows)
        },
        None => {
            let mut i: usize = 0;
            while i < db.tasks.len()
                invariant
                    i <= db.tasks@.len(),
                    rows@ == db.tasks@.subrange(0, i as int),
                decreases db.tasks@.len() - i,
            {
                rows.push(db.tasks[i].clone());
                proof {
                    assert(rows@ =~= db.tasks@.subrange(0, i as int + 1));
                }
                i += 1;
            }
            proof {
                assert(rows@ =~= db.tasks@);
            }
            TaskList(rows)
        },
    }
}

/// Looks a task up by id; fails with NotFound exactly when no row carries
/// the id.
pub fn get_task(db: &Db, id: IdType) -> (r: Result<Task, AppError>)
    requires
        db.wf(),
    ensures
        match r {
            Ok(t) => has_task(db.tasks@, id) && t == task_of(db.tasks@, id),
            Err(e) => e == AppError::NotFound && !has_task(db.tasks@, id),
        },
{
    match find_task_index(&db.tasks, id) {
        Some(i) => {
            proof {
                lemma_task_of(db.tasks@, i as int);
            }
            Ok(db.tasks[i].clone())
        },
        None => Err(AppError::NotFound),
    }
}

/// Inserts one task row under the given skill with
/// `created_at == updated_at == timestamp`, then touches the owning skill
/// and that skill's character with the same timestamp. Fails with a database
/// error exactly when the owning skill is absent (the foreign key would be
/// violated), `completed` is not a 0/1 encoding (the column check would be
/// violated), or the id space is exhausted.
pub fn create_task(db: &mut Db, skill_id: IdType, fields: TaskFields, timestamp: TimeType) -> (r:
    Result<IdType, AppError>)
    requires
        old(db).wf(),
    ensures
        final(db).wf(),
        match r {
            Ok(id) => {
                &&& has_skill(old(db).skills@, skill_id)
                &&& fields.completed <= 1
                &&& old(db).next_task_id < u64::MAX
                &&& id == old(db).next_task_id
                &&& final(db).tasks@ == old(db).tasks@.push(
                    Task {
                        id,
                        fields: fields,
                        skill_id,
                        created_at: timestamp,
                        updated_at: timestamp,
                    },
                )
                &&& skills_touched(old(db).skills@, final(db).skills@, skill_id, timestamp)
                &&& chars_touched(
                    old(db).characters@,
                    final(db).characters@,
                    skill_of(old(db).skills@, skill_id).character_id,
                    timestamp,
                )
                &&& final(db).next_task_id == old(db).next_task_id + 1
                &&& final(db).next_character_id == old(db).next_character_id
                &&& final(db).next_skill_id == old(db).next_skill_id
            },
            Err(e) => {
                &&& e is DBError
                &&& !(has_skill(old(db).skills@, skill_id) && fields.completed <= 1 && old(
                    db,
                ).next_task_id < u64::MAX)
                &&& *final(db) == *old(db)
            },
        },
{
    let character_id = match crate::db::skill::find_skill_index(&db.skills, skill_id) {
        Some(i) => {
            proof {
                lemma_skill_of(db.skills@, i as int);
            }
            db.skills[i].character_id
        },
        None => {
            return Err(
                AppError::DBError {
                    error_msg: "in create_task, FOREIGN KEY constraint failed".to_owned(),
                },
            );
        },
    };
    if fields.completed > 1 {
        return Err(
            AppError::DBError { error_msg: "in create_task, CHECK constraint failed".to_owned() },
        );
    }
    if db.next_task_id == u64::MAX {
        return Err(
            AppError::DBError { error_msg: "in create_task, id space exhausted".to_owned() },
        );
    }
    let id = db.next_task_id;
    let row = Task { id, fields, skill_id, created_at: timestamp, updated_at: timestamp };
    db.tasks.push(row);
    db.next_task_id = id + 1;
    proof {
        let pre = old(db).tasks@;
        let post = db.tasks@;
        assert forall|i: int, j: int|
            0 <= i < post.len() && 0 <= j < post.len() && i != j implies post[i].id
            != post[j].id by {
            if i < pre.len() && j < pre.len() {
                assert(post[i] == pre[i]);
                assert(post[j] == pre[j]);
            }
        }
        assert forall|i: int|
            0 <= i < post.len() implies task_row_wf(
            #[trigger] post[i],
            db.next_task_id,
            db.skills@,
        ) by {
            if i < pre.len() {
                assert(task_row_wf(pre[i], old(db).next_task_id, old(db).skills@));
            }
        }
    }
    // update parents' updated_at attributes
    touch_skill(db, skill_id, timestamp);
    touch_character(db, character_id, timestamp);
    Ok(id)
}

/// Replaces the mutable fields of the task with the given id, stamps it with
/// the timestamp, and touches the owning skill and that skill's character
/// with the same timestamp. Fails with NotFound exactly when the id is
/// absent, and with a database error when `completed` is not a 0/1 encoding.
pub fn update_task(db: &mut Db, id: IdType, fields: TaskFields, timestamp: TimeType) -> (r: Result<
    (),
    AppError,
>)
    requires
        old(db).wf(),
    ensures
        final(db).wf(),
        match r {
            Ok(_) => {
                &&& has_task(old(db).tasks@, id)
                &&& fields.completed <= 1
                &&& final(db).tasks@ == old(db).tasks@.update(
                    task_index(old(db).tasks@, id),
                    (Task {
                        id,
                        fields: fields,
                        skill_id: task_of(old(db).tasks@, id).skill_id,
                        created_at: task_of(old(db).tasks@, id).created_at,
                        updated_at: timestamp,
                    }),
                )
                &&& skills_touched(
                    old(db).skills@,
                    final(db).skills@,
                    task_of(old(db).tasks@, id).skill_id,
                    timestamp,
                )
                &&& chars_touched(
                    old(db).characters@,
                    final(db).characters@,
                    skill_of(old(db).skills@, task_of(old(db).tasks@, id).skill_id).character_id,
                    timestamp,
                )
                &&& same_counters(*old(db), *final(db))
            },
            Err(e) => {
                &&& *final(db) == *old(db)
                &&& if has_task(old(db).tasks@, id) {
                    e is DBError && fields.completed > 1
                } else {
                    e == AppError::NotFound
                }
            },
        },
{
    match find_task_index(&db.tasks, id) {
        Some(i) => {
            if fields.completed > 1 {
                return Err(
                    AppError::DBError {
                        error_msg: "in update_task, CHECK constraint failed".to_owned(),
                    },
                );
            }
            let row = db.tasks.remove(i);
            let skill_id = row.skill_id;
            let updated = Task {
                id,
                fields,
                skill_id,
                created_at: row.created_at,
                updated_at: timestamp,
            };
            db.tasks.insert(i, updated);
            
            proof {
                let pre = old(db).tasks@;
                lemma_task_of(pre, i as int);
                assert(db.tasks@ =~= pre.update(i as int, updated));
                lemma_update_task_row_wf(*old(db), *db, i as int, updated);
            }
            // update parents' updated_at attributes
            let character_id = match crate::db::skill::find_skill_index(&db.skills, skill_id) {
                Some(k) => {
                    proof {
                        lemma_skill_of(db.skills@, k as int);
                    }
                    db.skills[k].character_id
                },
                None => {
                    // unreachable: the task's foreign key is live
                    proof {
                        assert(task_row_wf(
                            old(db).tasks@[i as int],
                            old(db).next_task_id,
                            old(db).skills@,
                        ));
                        assert(false);
                    }
                    0
                },
            };
            touch_skill(db, skill_id, timestamp);
            touch_character(db, character_id, timestamp);
            Ok(())
        },
        None => Err(AppError::NotFound),
    }
}

/// Deletes the task with the given id, then touches the owning skill and
/// that skill's character with the same timestamp; fails with NotFound
/// exactly when the id is absent. Both parents are looked up before the row
/// disappears.
pub fn delete_task(db: &mut Db, id: IdType, timestamp: TimeType) -> (r: Result<(), AppError>)
    requires
        old(db).wf(),
    ensures
        final(db).wf(),
        match r {
            Ok(_) => {
                &&& has_task(old(db).tasks@, id)
                &&& final(db).tasks@ == tasks_without(old(db).tasks@, id)
                &&& skills_touched(
                    old(db).skills@,
                    final(db).skills@,
                    task_of(old(db).tasks@, id).skill_id,
                    timestamp,
                )
                &&& chars_touched(
                    old(db).characters@,
                    final(db).characters@,
                    skill_of(old(db).skills@, task_of(old(db).tasks@, id).skill_id).character_id,
                    timestamp,
                )
                &&& same_counters(*old(db), *final(db))
            },
            Err(e) => {
                &&& e == AppError::NotFound
                &&& !has_task(old(db).tasks@, id)
                &&& *final(db) == *old(db)
            },
        },
{
    // get parents' ids before deleting, for updating their updated_at attrs
    let skill_id = match find_task_index(&db.tasks, id) {
        Some(i) => {
            proof {
                lemma_task_of(db.tasks@, i as int);
            }
            db.tasks[i].skill_id
        },
        None => {
            return Err(AppError::NotFound);
        },
    };
    let character_id = match crate::db::skill::find_skill_index(&db.skills, skill_id) {
        Some(k) => {
            proof {
                lemma_skill_of(db.skills@, k as int);
            }
            db.skills[k].character_id
        },
        None => {
            // unreachable: the task's foreign key is live
            proof {
                let j = choose|j: int| 0 <= j < db.tasks@.len() && db.tasks@[j].id == id;
                assert(task_row_wf(db.tasks@[j], db.next_task_id, db.skills@));
                assert(false);
            }
            0
        },
    };
    let ghost pre = *db;

    let mut kept_tasks: Vec<Task> = Vec::new();
    let mut i: usize = 0;
    while i < db.tasks.len()
        invariant
            i <= db.tasks@.len(),
            *db == pre,
            kept_tasks@ == tasks_without(db.tasks@.subrange(0, i as int), id),
        decreases db.tasks@.len() - i,
    {
        let ghost prefix = db.tasks@.subrange(0, i as int);
        if db.tasks[i].id != id {
            kept_tasks.push(db.tasks[i].clone());
        }
        proof {
            assert(db.tasks@.subrange(0, i as int + 1) =~= prefix.push(db.tasks@[i as int]));
            assert(db.tasks@.subrange(0, i as int + 1).drop_last() =~= prefix);
        }
        i += 1;
    }
    proof {
        assert(db.tasks@.subrange(0, db.tasks@.len() as int) =~= db.tasks@);
    }
    db.tasks = kept_tasks;

    proof {
        lemma_tasks_without_unique(pre.tasks@, id);
        lemma_tasks_without_contains(pre.tasks@, id);
        assert forall|k: int|
            0 <= k < db.tasks@.len() implies task_row_wf(
            #[trigger] db.tasks@[k],
            db.next_task_id,
            db.skills@,
        ) by {
            let x = db.tasks@[k];
            assert(db.tasks@.contains(x));
            let j = choose|j: int| 0 <= j < pre.tasks@.len() && pre.tasks@[j] == x;
            assert(task_row_wf(pre.tasks@[j], pre.next_task_id, pre.skills@));
        }
    }
    touch_skill(db, skill_id, timestamp);
    touch_character(db, character_id, timestamp);
    Ok(())
}

/// Replacing one task row in place, id and owner kept, preserves
/// well-formedness.
proof fn lemma_update_task_row_wf(pre: Db, post: Db, i: int, row: Task)
    requires
        pre.wf(),
        0 <= i < pre.tasks@.len(),
        row.id == pre.tasks@[i].id,
        row.skill_id == pre.tasks@[i].skill_id,
        row.fields.completed <= 1,
        post.tasks@ == pre.tasks@.update(i, row),
        post.characters@ == pre.characters@,
        post.skills@ == pre.skills@,
        same_counters(pre, post),
    ensures
        post.wf(),
{
    let a = pre.tasks@;
    let b = post.tasks@;
    assert forall|p: int, q: int|
        0 <= p < b.len() && 0 <= q < b.len() && p != q implies b[p].id != b[q].id by {
        assert(a[p].id == b[p].id);
        assert(a[q].id == b[q].id);
    }
    assert forall|k: int|
        0 <= k < b.len() implies task_row_wf(#[trigger] b[k], post.next_task_id, post.skills@) by {
        assert(task_row_wf(a[k], pre.next_task_id, pre.skills@));
    }
}

} // verus!
