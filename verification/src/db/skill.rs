//! Repository operations of the skill table: list (optionally filtered by
//! owning character), lookup, create, update, touch and delete. Every skill
//! mutation touches the owning character with the same timestamp as the
//! mutation itself; deleting a skill cascades over its tasks.

use vstd::prelude::*;

use crate::db::character::{chars_touched, touch as touch_character};
use crate::db::task::{
    lemma_tasks_without_skill_contains, lemma_tasks_without_skill_unique, tasks_without_skill,
};
use crate::db::{same_counters, skill_row_wf, task_row_wf, Db};
use crate::model::character::has_character;
use crate::model::skill::{
    has_skill, lemma_skill_of, skill_index, skill_of, unique_skill_ids, Skill, SkillFields,
    SkillList,
};
use crate::model::task::Task;
use crate::util::{IdType, TimeType};
use crate::AppError;

verus! {

/// The skill table after the row with the given id (if any) is removed;
/// order of the remaining rows is kept.
pub open spec fn skills_without(s: Seq<Skill>, id: IdType) -> Seq<Skill>
    decreases s.len(),
{
    if s.len() == 0 {
        Seq::empty()
    } else {
        let rest = skills_without(s.drop_last(), id);
        if s.last().id != id {
            rest.push(s.last())
        } else {
            rest
        }
    }
}

/// The skills owned by the given character, in table order.
pub open spec fn skills_of_character(s: Seq<Skill>, character_id: IdType) -> Seq<Skill>
    decreases s.len(),
{
    if s.len() == 0 {
        Seq::empty()
    } else {
        let rest = skills_of_character(s.drop_last(), character_id);
        if s.last().character_id == character_id {
            rest.push(s.last())
        } else {
            rest
        }
    }
}

/// The skill table after the row with the given id (if any) had its
/// `updated_at` set to the given timestamp; everything else is unchanged.
pub open spec fn skills_touched(
    pre: Seq<Skill>,
    post: Seq<Skill>,
    id: IdType,
    t: TimeType,
) -> bool {
    &&& post.len() == pre.len()
    &&& forall|i: int|
        0 <= i < pre.len() ==> #[trigger] post[i] == (if pre[i].id == id {
            (Skill {
                id: pre[i].id,
                fields: pre[i].fields,
                character_id: pre[i].character_id,
                created_at: pre[i].created_at,
                updated_at: t,
            })
        } else {
            pre[i]
        })
}

/// Rows with pointwise equal ids carry the same set of ids.
pub proof fn lemma_same_ids_has_skill(a: Seq<Skill>, b: Seq<Skill>, id: IdType)
    requires
        b.len() == a.len(),
        forall|i: int| 0 <= i < a.len() ==> a[i].id == #[trigger] b[i].id,
    ensures
        has_skill(a, id) == has_skill(b, id),
{
    if has_skill(a, id) {
        let i = choose|i: int| 0 <= i < a.len() && a[i].id == id;
        assert(b[i].id == id);
    }
    if has_skill(b, id) {
        let i = choose|i: int| 0 <= i < b.len() && b[i].id == id;
        assert(a[i].id == id);
    }
}

/// Membership in `skills_without`: exactly the rows whose id differs.
pub proof fn lemma_skills_without_contains(s: Seq<Skill>, id: IdType)
    ensures
        forall|x: Skill| #[trigger]
            skills_without(s, id).contains(x) <==> (s.contains(x) && x.id != id),
    decreases s.len(),
{
    if s.len() == 0 {
    } else {
        let pre = s.drop_last();
        let rest = skills_without(pre, id);
        lemma_skills_without_contains(pre, id);
        assert forall|x: Skill| #[trigger]
            skills_without(s, id).contains(x) implies (s.contains(x) && x.id != id) by {
            if s.last().id != id && x == s.last() {
                assert(s[s.len() - 1] == x);
            } else {
                assert(rest.contains(x));
                assert(pre.contains(x));
                let i = choose|i: int| 0 <= i < pre.len() && pre[i] == x;
                assert(s[i] == x);
            }
        }
        assert forall|x: Skill| s.contains(x) && x.id != id implies #[trigger]
            skills_without(s, id).contains(x) by {
            let i = choose|i: int| 0 <= i < s.len() && s[i] == x;
            if i < s.len() - 1 {
                assert(pre[i] == x);
                assert(pre.contains(x));
                assert(rest.contains(x));
                if s.last().id != id {
                    let j = choose|j: int| 0 <= j < rest.len() && rest[j] == x;
                    assert(rest.push(s.last())[j] == x);
                }
            } else {
                assert(x == s.last());
                assert(rest.push(s.last())[rest.len() as int] == x);
            }
        }
    }
}

/// Which ids `skills_without` carries.
pub proof fn lemma_skills_without_has(s: Seq<Skill>, id: IdType, other: IdType)
    ensures
        has_skill(skills_without(s, id), other) <==> (has_skill(s, other) && other != id),
{
    lemma_skills_without_contains(s, id);
    let out = skills_without(s, id);
    if has_skill(out, other) {
        let i = choose|i: int| 0 <= i < out.len() && out[i].id == other;
        assert(out.contains(out[i]));
        let x = out[i];
        let j = choose|j: int| 0 <= j < s.len() && s[j] == x;
        assert(s[j].id == other);
    }
    if has_skill(s, other) && other != id {
        let i = choose|i: int| 0 <= i < s.len() && s[i].id == other;
        assert(s.contains(s[i]));
        assert(out.contains(s[i]));
        let j = choose|j: int| 0 <= j < out.len() && out[j] == s[i];
        assert(out[j].id == other);
    }
}

/// Removal by id keeps the remaining ids unique.
pub proof fn lemma_skills_without_unique(s: Seq<Skill>, id: IdType)
    requires
        unique_skill_ids(s),
    ensures
        unique_skill_ids(skills_without(s, id)),
    decreases s.len(),
{
    if s.len() == 0 {
    } else {
        let pre = s.drop_last();
        let rest = skills_without(pre, id);
        assert(unique_skill_ids(pre));
        lemma_skills_without_unique(pre, id);
        lemma_skills_without_contains(pre, id);
        if s.last().id != id {
            assert forall|j: int| 0 <= j < rest.len() implies rest[j].id != s.last().id by {
                assert(rest.contains(rest[j]));
                assert(pre.contains(rest[j]));
                let i = choose|i: int| 0 <= i < pre.len() && pre[i] == rest[j];
                assert(s[i].id != s[s.len() - 1].id);
            }
            let out = rest.push(s.last());
            assert forall|i: int, j: int|
                0 <= i < out.len() && 0 <= j < out.len() && i != j implies out[i].id
                != out[j].id by {
                if i < rest.len() && j < rest.len() {
                    assert(out[i] == rest[i]);
                    assert(out[j] == rest[j]);
                }
            }
        }
    }
}

/// Finds the index of the row with the given id, if there is one.
pub(crate) fn find_skill_index(rows: &Vec<Skill>, id: IdType) -> (r: Option<usize>)
    ensures
        match r {
            Some(i) => i < rows@.len() && rows@[i as int].id == id,
            None => !has_skill(rows@, id),
        },
{
    let mut i: usize = 0;
    while i < rows.len()
        invariant
            i <= rows@.len(),
            forall|j: int| 0 <= j < i ==> rows@[j].id != id,
        decreases rows@.len() - i,
    {
        if rows[i].id == id {
            return Some(i);
        }
        i += 1;
    }
    None
}

/// Lists skills, all of them or only those of one character, in table order.
pub fn get_skill_list(db: &Db, character_id: Option<IdType>) -> (r: SkillList)
    ensures
        match character_id {
            Some(cid) => r.0@ == skills_of_character(db.skills@, cid),
            None => r.0@ == db.skills@,
        },
{
    let mut rows: Vec<Skill> = Vec::new();
    match character_id {
        Some(cid) => {
            let mut i: usize = 0;
            while i < db.skills.len()
                invariant
                    i <= db.skills@.len(),
                    rows@ == skills_of_character(db.skills@.subrange(0, i as int), cid),
                decreases db.skills@.len() - i,
            {
                let ghost prefix = db.skills@.subrange(0, i as int);
                if db.skills[i].character_id == cid {
                    rows.push(db.skills[i].clone());
                }
                proof {
                    assert(db.skills@.subrange(0, i as int + 1) =~= prefix.push(
                        db.skills@[i as int],
                    ));
                    assert(db.skills@.subrange(0, i as int + 1).drop_last() =~= prefix);
                }
                i += 1;
            }
            proof {
                assert(db.skills@.subrange(0, db.skills@.len() as int) =~= db.skills@);
            }
            SkillList(rows)
        },
        None => {
            let mut i: usize = 0;
            while i < db.skills.len()
                invariant
                    i <= db.skills@.len(),
                    rows@ == db.skills@.subrange(0, i as int),
                decreases db.skills@.len() - i,
            {
                rows.push(db.skills[i].clone());
                proof {
                    assert(rows@ =~= db.skills@.subrange(0, i as int + 1));
                }
                i += 1;
            }
            proof {
                assert(rows@ =~= db.skills@);
            }
            SkillList(rows)
        },
    }
}

/// Looks a skill up by id; fails with NotFound exactly when no row carries
/// the id.
pub fn get_skill(db: &Db, id: IdType) -> (r: Result<Skill, AppError>)
    requires
        db.wf(),
    ensures
        match r {
            Ok(s) => has_skill(db.skills@, id) && s == skill_of(db.skills@, id),
            Err(e) => e == AppError::NotFound && !has_skill(db.skills@, id),
        },
{
    match find_skill_index(&db.skills, id) {
        Some(i) => {
            proof {
                lemma_skill_of(db.skills@, i as int);
            }
            Ok(db.skills[i].clone())
        },
        None => Err(AppError::NotFound),
    }
}

/// Inserts one skill row under the given character with
/// `created_at == updated_at == timestamp`, then touches the owning
/// character with the same timestamp. Fails with a database error exactly
/// when the owning character is absent (the foreign key would be violated)
/// or the id space is exhausted.
pub fn create_skill(
    db: &mut Db,
    character_id: IdType,
    fields: SkillFields,
    timestamp: TimeType,
) -> (r: Result<IdType, AppError>)
    requires
        old(db).wf(),
    ensures
        final(db).wf(),
        match r {
            Ok(id) => {
                &&& has_character(old(db).characters@, character_id)
                &&& old(db).next_skill_id < u64::MAX
                &&& id == old(db).next_skill_id
                &&& final(db).skills@ == old(db).skills@.push(
                    Skill {
                        id,
                        fields: fields,
                        character_id,
                        created_at: timestamp,
                        updated_at: timestamp,
                    },
                )
                &&& chars_touched(
                    old(db).characters@,
                    final(db).characters@,
                    character_id,
                    timestamp,
                )
                &&& final(db).tasks@ == old(db).tasks@
                &&& final(db).next_skill_id == old(db).next_skill_id + 1
                &&& final(db).next_character_id == old(db).next_character_id
                &&& final(db).next_task_id == old(db).next_task_id
            },
            Err(e) => {
                &&& e is DBError
                &&& !(has_character(old(db).characters@, character_id) && old(db).next_skill_id
                    < u64::MAX)
                &&& *final(db) == *old(db)
            },
        },
{
    if crate::db::character::find_character_index(&db.characters, character_id).is_none() {
        return Err(
            AppError::DBError {
                error_msg: "in create_skill, FOREIGN KEY constraint failed".to_owned(),
            },
        );
    }
    if db.next_skill_id == u64::MAX {
        return Err(
            AppError::DBError { error_msg: "in create_skill, id space exhausted".to_owned() },
        );
    }
    let id = db.next_skill_id;
    let row = Skill { id, fields, character_id, created_at: timestamp, updated_at: timestamp };
    db.skills.push(row);
    db.next_skill_id = id + 1;
    proof {
        lemma_push_skill_wf(
            *old(db),
            *db,
            (Skill {
                id,
                fields: fields,
                character_id,
                created_at: timestamp,
                updated_at: timestamp,
            }),
        );
    }
    // update parent's updated_at attribute
    touch_character(db, character_id, timestamp);
    Ok(id)
}

/// Replaces the mutable fields of the skill with the given id, stamps it
/// with the timestamp, and touches the owning character with the same
/// timestamp; fails with NotFound exactly when the id is absent.
pub fn update_skill(db: &mut Db, id: IdType, fields: SkillFields, timestamp: TimeType) -> (r:
    Result<(), AppError>)
    requires
        old(db).wf(),
    ensures
        final(db).wf(),
        match r {
            Ok(_) => {
                &&& has_skill(old(db).skills@, id)
                &&& final(db).skills@ == old(db).skills@.update(
                    skill_index(old(db).skills@, id),
                    (Skill {
                        id,
                        fields: fields,
                        character_id: skill_of(old(db).skills@, id).character_id,
                        created_at: skill_of(old(db).skills@, id).created_at,
                        updated_at: timestamp,
                    }),
                )
                &&& chars_touched(
                    old(db).characters@,
                    final(db).characters@,
                    skill_of(old(db).skills@, id).character_id,
                    timestamp,
                )
                &&& final(db).tasks@ == old(db).tasks@
                &&& same_counters(*old(db), *final(db))
            },
            Err(e) => {
                &&& e == AppError::NotFound
                &&& !has_skill(old(db).skills@, id)
                &&& *final(db) == *old(db)
            },
        },
{
    match find_skill_index(&db.skills, id) {
        Some(i) => {
            let row = db.skills.remove(i);
            let character_id = row.character_id;
            let updated = Skill {
                id,
                fields,
                character_id,
                created_at: row.created_at,
                updated_at: timestamp,
            };
            db.skills.insert(i, updated);
            proof {
                let pre = old(db).skills@;
                lemma_skill_of(pre, i as int);
                assert(db.skills@ =~= pre.update(i as int, updated));
                lemma_update_skill_row_wf(*old(db), *db, i as int, updated);
            }
            // update parent's updated_at attribute
            touch_character(db, character_id, timestamp);
            Ok(())
        },
        None => Err(AppError::NotFound),
    }
}

/// Deletes the skill with the given id and, through the storage layer's
/// cascade, every task it owns, then touches the owning character with the
/// same timestamp; fails with NotFound exactly when the id is absent. The
/// owner is looked up before the row disappears.
pub fn delete_skill(db: &mut Db, id: IdType, timestamp: TimeType) -> (r: Result<(), AppError>)
    requires
        old(db).wf(),
    ensures
        final(db).wf(),
        match r {
            Ok(_) => {
                &&& has_skill(old(db).skills@, id)
                &&& final(db).skills@ == skills_without(old(db).skills@, id)
                &&& final(db).tasks@ == tasks_without_skill(old(db).tasks@, id)
                &&& chars_touched(
                    old(db).characters@,
                    final(db).characters@,
                    skill_of(old(db).skills@, id).character_id,
                    timestamp,
                )
                &&& same_counters(*old(db), *final(db))
            },
            Err(e) => {
                &&& e == AppError::NotFound
                &&& !has_skill(old(db).skills@, id)
                &&& *final(db) == *old(db)
            },
        },
{
    // get parent id before deleting
    let character_id = match find_skill_index(&db.skills, id) {
        Some(i) => {
            proof {
                lemma_skill_of(db.skills@, i as int);
            }
            db.skills[i].character_id
        },
        None => {
            return Err(AppError::NotFound);
        },
    };
    let ghost pre = *db;

    // remove the skill's tasks first (child table first)
    let mut kept_tasks: Vec<Task> = Vec::new();
    let mut i: usize = 0;
    while i < db.tasks.len()
        invariant
            i <= db.tasks@.len(),
            *db == pre,
            kept_tasks@ == tasks_without_skill(db.tasks@.subrange(0, i as int), id),
        decreases db.tasks@.len() - i,
    {
        let ghost prefix = db.tasks@.subrange(0, i as int);
        if db.tasks[i].skill_id != id {
            kept_tasks.push(db.tasks[i].clone());
        }
        proof {
            assert(db.tasks@.subrange(0, i as int + 1) =~= prefix.push(db.tasks@[i as int]));
            assert(db.tasks@.subrange(0, i as int + 1).drop_last() =~= prefix);
        }
        i += 1;
    }
    proof {
        assert(db.tasks@.subrange(0, db.tasks@.len() as int) =~= db.tasks@);
    }
    db.tasks = kept_tasks;

    // then the skill row itself
    let mut kept_skills: Vec<Skill> = Vec::new();
    let mut j: usize = 0;
    while j < db.skills.len()
        invariant
            j <= db.skills@.len(),
            db.skills@ == pre.skills@,
            kept_skills@ == skills_without(db.skills@.subrange(0, j as int), id),
        decreases db.skills@.len() - j,
    {
        let ghost prefix = db.skills@.subrange(0, j as int);
        if db.skills[j].id != id {
            kept_skills.push(db.skills[j].clone());
        }
        proof {
            assert(db.skills@.subrange(0, j as int + 1) =~= prefix.push(db.skills@[j as int]));
            assert(db.skills@.subrange(0, j as int + 1).drop_last() =~= prefix);
        }
        j += 1;
    }
    proof {
        assert(db.skills@.subrange(0, db.skills@.len() as int) =~= db.skills@);
    }
    db.skills = kept_skills;

    proof {
        lemma_delete_skill_wf(pre, *db, id);
    }
    // update parent's updated_at attribute
    touch_character(db, character_id, timestamp);
    Ok(())
}

/// Sets `updated_at` of the skill with the given id; the ancestor
/// notification of the cascade rule, never driven by a request directly.
pub fn touch(db: &mut Db, id: IdType, timestamp: TimeType)
    requires
        old(db).wf(),
        has_skill(old(db).skills@, id),
    ensures
        final(db).wf(),
        skills_touched(old(db).skills@, final(db).skills@, id, timestamp),
        final(db).characters@ == old(db).characters@,
        final(db).tasks@ == old(db).tasks@,
        same_counters(*old(db), *final(db)),
{
    match find_skill_index(&db.skills, id) {
        Some(i) => {
            let row = db.skills.remove(i);
            let touched = Skill {
                id: row.id,
                fields: row.fields,
                character_id: row.character_id,
                created_at: row.created_at,
                updated_at: timestamp,
            };
            db.skills.insert(i, touched);
            proof {
                let pre = old(db).skills@;
                assert(db.skills@ =~= pre.update(i as int, touched));
                assert forall|j: int|
                    0 <= j < pre.len() implies #[trigger] db.skills@[j] == (if pre[j].id == id {
                    (Skill {
                        id: pre[j].id,
                        fields: pre[j].fields,
                        character_id: pre[j].character_id,
                        created_at: pre[j].created_at,
                        updated_at: timestamp,
                    })
                } else {
                    pre[j]
                }) by {
                    if j != i as int && pre[j].id == id {
                        assert(pre[i as int].id == pre[j].id);
                    }
                }
                lemma_update_skill_row_wf(*old(db), *db, i as int, touched);
            }
        },
        None => {
            // unreachable under the precondition
            proof {
                assert(false);
            }
        },
    }
}

/// Appending a skill whose owner is live and whose id is the counter value
/// preserves well-formedness once the counter moves past it.
proof fn lemma_push_skill_wf(pre: Db, post: Db, row: Skill)
    requires
        pre.wf(),
        pre.next_skill_id < u64::MAX,
        row.id == pre.next_skill_id,
        has_character(pre.characters@, row.character_id),
        post.characters@ == pre.characters@,
        post.tasks@ == pre.tasks@,
        post.skills@ == pre.skills@.push(row),
        post.next_skill_id == pre.next_skill_id + 1,
        post.next_character_id == pre.next_character_id,
        post.next_task_id == pre.next_task_id,
    ensures
        post.wf(),
{
    let a = pre.skills@;
    let b = post.skills@;
    assert forall|i: int, j: int|
        0 <= i < b.len() && 0 <= j < b.len() && i != j implies b[i].id != b[j].id by {
        if i < a.len() && j < a.len() {
            assert(b[i] == a[i]);
            assert(b[j] == a[j]);
        }
    }
    assert forall|i: int|
        0 <= i < post.tasks@.len() implies task_row_wf(
        #[trigger] post.tasks@[i],
        post.next_task_id,
        post.skills@,
    ) by {
        assert(task_row_wf(pre.tasks@[i], pre.next_task_id, pre.skills@));
        let sid = post.tasks@[i].skill_id;
        let k = choose|k: int| 0 <= k < a.len() && a[k].id == sid;
        assert(b[k].id == sid);
    }
}

/// Replacing one skill row in place, id and owner kept, preserves
/// well-formedness.
proof fn lemma_update_skill_row_wf(pre: Db, post: Db, i: int, row: Skill)
    requires
        pre.wf(),
        0 <= i < pre.skills@.len(),
        row.id == pre.skills@[i].id,
        row.character_id == pre.skills@[i].character_id,
        post.skills@ == pre.skills@.update(i, row),
        post.characters@ == pre.characters@,
        post.tasks@ == pre.tasks@,
        same_counters(pre, post),
    ensures
        post.wf(),
{
    let a = pre.skills@;
    let b = post.skills@;
    assert forall|p: int, q: int|
        0 <= p < b.len() && 0 <= q < b.len() && p != q implies b[p].id != b[q].id by {
        assert(a[p].id == b[p].id);
        assert(a[q].id == b[q].id);
    }
    assert forall|k: int|
        0 <= k < post.tasks@.len() implies task_row_wf(
        #[trigger] post.tasks@[k],
        post.next_task_id,
        post.skills@,
    ) by {
        assert(task_row_wf(pre.tasks@[k], pre.next_task_id, pre.skills@));
        assert forall|m: int| 0 <= m < a.len() implies a[m].id == #[trigger] b[m].id by {}
        lemma_same_ids_has_skill(a, b, post.tasks@[k].skill_id);
    }
}

/// Deleting a skill and cascading over its tasks preserves well-formedness.
proof fn lemma_delete_skill_wf(pre: Db, post: Db, id: IdType)
    requires
        pre.wf(),
        post.characters@ == pre.characters@,
        post.skills@ == skills_without(pre.skills@, id),
        post.tasks@ == tasks_without_skill(pre.tasks@, id),
        same_counters(pre, post),
    ensures
        post.wf(),
{
    lemma_skills_without_unique(pre.skills@, id);
    lemma_skills_without_contains(pre.skills@, id);
    lemma_tasks_without_skill_contains(pre.tasks@, id);
    lemma_tasks_without_skill_unique(pre.tasks@, id);

    assert forall|i: int|
        0 <= i < post.skills@.len() implies skill_row_wf(
        #[trigger] post.skills@[i],
        post.next_skill_id,
        post.characters@,
    ) by {
        let x = post.skills@[i];
        assert(post.skills@.contains(x));
        let j = choose|j: int| 0 <= j < pre.skills@.len() && pre.skills@[j] == x;
        assert(skill_row_wf(pre.skills@[j], pre.next_skill_id, pre.characters@));
    }
    assert forall|i: int|
        0 <= i < post.tasks@.len() implies task_row_wf(
        #[trigger] post.tasks@[i],
        post.next_task_id,
        post.skills@,
    ) by {
        let x = post.tasks@[i];
        assert(post.tasks@.contains(x));
        let j = choose|j: int| 0 <= j < pre.tasks@.len() && pre.tasks@[j] == x;
        assert(task_row_wf(pre.tasks@[j], pre.next_task_id, pre.skills@));
        assert(x.skill_id != id);
        lemma_skills_without_has(pre.skills@, id, x.skill_id);
    }
}

} // verus!
