//! Repository operations of the character table: list, lookup, create,
//! update, touch and delete. Characters are the root of the hierarchy, so
//! their mutations touch no ancestor; deleting one cascades over its skills
//! and their tasks.

use vstd::prelude::*;

use crate::db::{character_row_wf, same_counters, skill_row_wf, task_row_wf, Db};
use crate::model::character::{
    char_index, character_of, has_character, lemma_character_of, unique_character_ids, Character,
    CharacterFields, CharacterList,
};
use crate::model::skill::{has_skill, skill_owned_by, unique_skill_ids, Skill};
use crate::model::task::{unique_task_ids, Task};
use crate::util::{IdType, TimeType};
use crate::AppError;

verus! {

/// The character table after the row with the given id (if any) is removed;
/// order of the remaining rows is kept.
pub open spec fn chars_without(s: Seq<Character>, id: IdType) -> Seq<Character>
    decreases s.len(),
{
    if s.len() == 0 {
        Seq::empty()
    } else {
        let rest = chars_without(s.drop_last(), id);
        if s.last().id != id {
            rest.push(s.last())
        } else {
            rest
        }
    }
}

/// The skill table after every skill owned by the given character is removed.
pub open spec fn skills_without_character(s: Seq<Skill>, character_id: IdType) -> Seq<Skill>
    decreases s.len(),
{
    if s.len() == 0 {
        Seq::empty()
    } else {
        let rest = skills_without_character(s.drop_last(), character_id);
        if s.last().character_id != character_id {
            rest.push(s.last())
        } else {
            rest
        }
    }
}

/// The task table after every task whose owning skill is owned by the given
/// character is removed.
pub open spec fn tasks_without_character(
    tasks: Seq<Task>,
    skills: Seq<Skill>,
    character_id: IdType,
) -> Seq<Task>
    decreases tasks.len(),
{
    if tasks.len() == 0 {
        Seq::empty()
    } else {
        let rest = tasks_without_character(tasks.drop_last(), skills, character_id);
        if !skill_owned_by(skills, tasks.last().skill_id, character_id) {
            rest.push(tasks.last())
        } else {
            rest
        }
    }
}

/// The character table after the row with the given id (if any) had its
/// `updated_at` set to the given timestamp; everything else is unchanged.
pub open spec fn chars_touched(
    pre: Seq<Character>,
    post: Seq<Character>,
    id: IdType,
    t: TimeType,
) -> bool {
    &&& post.len() == pre.len()
    &&& forall|i: int|
        0 <= i < pre.len() ==> #[trigger] post[i] == (if pre[i].id == id {
            (Character {
                id: pre[i].id,
                fields: pre[i].fields,
                created_at: pre[i].created_at,
                updated_at: t,
            })
        } else {
            pre[i]
        })
}

/// Rows with pointwise equal ids carry the same set of ids.
pub proof fn lemma_same_ids_has_character(a: Seq<Character>, b: Seq<Character>, id: IdType)
    requires
        b.len() == a.len(),
        forall|i: int| 0 <= i < a.len() ==> a[i].id == #[trigger] b[i].id,
    ensures
        has_character(a, id) == has_character(b, id),
{
    if has_character(a, id) {
        let i = choose|i: int| 0 <= i < a.len() && a[i].id == id;
        assert(b[i].id == id);
    }
    if has_character(b, id) {
        let i = choose|i: int| 0 <= i < b.len() && b[i].id == id;
        assert(a[i].id == id);
    }
}

/// Membership in `chars_without`: exactly the rows whose id differs.
pub proof fn lemma_chars_without_contains(s: Seq<Character>, id: IdType)
    ensures
        forall|x: Character| #[trigger]
            chars_without(s, id).contains(x) <==> (s.contains(x) && x.id != id),
    decreases s.len(),
{
    if s.len() == 0 {
    } else {
        let pre = s.drop_last();
        let rest = chars_without(pre, id);
        lemma_chars_without_contains(pre, id);
        assert forall|x: Character| #[trigger]
            chars_without(s, id).contains(x) implies (s.contains(x) && x.id != id) by {
            if s.last().id != id && x == s.last() {
                assert(s[s.len() - 1] == x);
            } else {
                assert(rest.contains(x));
                assert(pre.contains(x));
                let i = choose|i: int| 0 <= i < pre.len() && pre[i] == x;
                assert(s[i] == x);
            }
        }
        assert forall|x: Character| s.contains(x) && x.id != id implies #[trigger]
            chars_without(s, id).contains(x) by {
            let i = choose|i: int| 0 <= i < s.len() && s[i] == x;
            if i < s.len() - 1 {
                assert(pre[i] == x);
                assert(pre.contains(x));
                assert(rest.contains(x));
                if s.last().id != id {
                    let j = choose|j: int| 0 <= j < rest.len() && rest[j] == x;
                    assert(rest.push(s.last())[j] == x);
                }
            } else {
                assert(x == s.last());
                assert(rest.push(s.last())[rest.len() as int] == x);
            }
        }
    }
}

/// Which ids `chars_without` carries.
pub proof fn lemma_chars_without_has(s: Seq<Character>, id: IdType, other: IdType)
    ensures
        has_character(chars_without(s, id), other) <==> (has_character(s, other) && other != id),
{
    lemma_chars_without_contains(s, id);
    let out = chars_without(s, id);
    if has_character(out, other) {
        let i = choose|i: int| 0 <= i < out.len() && out[i].id == other;
        assert(out.contains(out[i]));
        let x = out[i];
        let j = choose|j: int| 0 <= j < s.len() && s[j] == x;
        assert(s[j].id == other);
    }
    if has_character(s, other) && other != id {
        let i = choose|i: int| 0 <= i < s.len() && s[i].id == other;
        assert(s.contains(s[i]));
        assert(out.contains(s[i]));
        let j = choose|j: int| 0 <= j < out.len() && out[j] == s[i];
        assert(out[j].id == other);
    }
}

/// Removal by id keeps the remaining ids unique.
pub proof fn lemma_chars_without_unique(s: Seq<Character>, id: IdType)
    requires
        unique_character_ids(s),
    ensures
        unique_character_ids(chars_without(s, id)),
    decreases s.len(),
{
    if s.len() == 0 {
    } else {
        let pre = s.drop_last();
        let rest = chars_without(pre, id);
        assert(unique_character_ids(pre));
        lemma_chars_without_unique(pre, id);
        if s.last().id != id {
            assert forall|j: int| 0 <= j < rest.len() implies rest[j].id != s.last().id by {
                lemma_chars_without_has(pre, id, rest[j].id);
                assert(has_character(rest, rest[j].id));
                let i = choose|i: int| 0 <= i < pre.len() && pre[i].id == rest[j].id;
                assert(s[i].id == rest[j].id);
                assert(s[i].id != s[s.len() - 1].id);
            }
            let out = rest.push(s.last());
            assert forall|i: int, j: int|
                0 <= i < out.len() && 0 <= j < out.len() && i != j implies out[i].id
                != out[j].id by {
                if i < rest.len() && j < rest.len() {
                    assert(out[i] == rest[i]);
                    assert(out[j] == rest[j]);
                }
            }
        }
    }
}

/// Finds the index of the row with the given id, if there is one.
pub(crate) fn find_character_index(rows: &Vec<Character>, id: IdType) -> (r: Option<usize>)
    ensures
        match r {
            Some(i) => i < rows@.len() && rows@[i as int].id == id,
            None => !has_character(rows@, id),
        },
{
    let mut i: usize = 0;
    while i < rows.len()
        invariant
            i <= rows@.len(),
            forall|j: int| 0 <= j < i ==> rows@[j].id != id,
        decreases rows@.len() - i,
    {
        if rows[i].id == id {
            return Some(i);
        }
        i += 1;
    }
    None
}

/// Lists every character, in table order.
pub fn get_character_list(db: &Db) -> (r: CharacterList)
    ensures
        r.0@ == db.characters@,
{
    let mut rows: Vec<Character> = Vec::new();
    let mut i: usize = 0;
    while i < db.characters.len()
        invariant
            i <= db.characters@.len(),
            rows@ == db.characters@.subrange(0, i as int),
        decreases db.characters@.len() - i,
    {
        rows.push(db.characters[i].clone());
        proof {
            assert(rows@ =~= db.characters@.subrange(0, i as int + 1));
        }
        i += 1;
    }
    proof {
        assert(rows@ =~= db.characters@);
    }
    CharacterList(rows)
}

/// Looks a character up by id; fails with NotFound exactly when no row
/// carries the id.
pub fn get_character(db: &Db, id: IdType) -> (r: Result<Character, AppError>)
    requires
        db.wf(),
    ensures
        match r {
            Ok(c) => has_character(db.characters@, id) && c == character_of(db.characters@, id),
            Err(e) => e == AppError::NotFound && !has_character(db.characters@, id),
        },
{
    match find_character_index(&db.characters, id) {
        Some(i) => {
            proof {
                lemma_character_of(db.characters@, i as int);
            }
            Ok(db.characters[i].clone())
        },
        None => Err(AppError::NotFound),
    }
}

/// Inserts one character row with `created_at == updated_at == timestamp` and
/// the next id from the counter; fails only when the id space is exhausted.
pub fn create_character(db: &mut Db, fields: CharacterFields, timestamp: TimeType) -> (r: Result<
    IdType,
    AppError,
>)
    requires
        old(db).wf(),
    ensures
        final(db).wf(),
        match r {
            Ok(id) => {
                &&& old(db).next_character_id < u64::MAX
                &&& id == old(db).next_character_id
                &&& final(db).characters@ == old(db).characters@.push(
                    Character { id, fields: fields, created_at: timestamp, updated_at: timestamp },
                )
                &&& final(db).skills@ == old(db).skills@
                &&& final(db).tasks@ == old(db).tasks@
                &&& final(db).next_character_id == old(db).next_character_id + 1
                &&& final(db).next_skill_id == old(db).next_skill_id
                &&& final(db).next_task_id == old(db).next_task_id
            },
            Err(e) => {
                &&& old(db).next_character_id == u64::MAX
                &&& e is DBError
                &&& *final(db) == *old(db)
            },
        },
{
    if db.next_character_id == u64::MAX {
        return Err(
            AppError::DBError { error_msg: "in create_character, id space exhausted".to_owned() },
        );
    }
    let id = db.next_character_id;
    let row = Character { id, fields, created_at: timestamp, updated_at: timestamp };
    db.characters.push(row);
    db.next_character_id = id + 1;
    proof {
        let pre = old(db).characters@;
        let post = db.characters@;
        assert forall|i: int, j: int|
            0 <= i < post.len() && 0 <= j < post.len() && i != j implies post[i].id
            != post[j].id by {
            if i < pre.len() && j < pre.len() {
                assert(post[i] == pre[i]);
                assert(post[j] == pre[j]);
            }
        }
        assert forall|i: int|
            0 <= i < db.skills@.len() implies skill_row_wf(
            #[trigger] db.skills@[i],
            db.next_skill_id,
            db.characters@,
        ) by {
            assert(skill_row_wf(old(db).skills@[i], old(db).next_skill_id, pre));
            let cid = db.skills@[i].character_id;
            let k = choose|k: int| 0 <= k < pre.len() && pre[k].id == cid;
            assert(post[k].id == cid);
        }
    }
    Ok(id)
}

/// Replaces the mutable fields of the character with the given id and stamps
/// it with the timestamp; fails with NotFound exactly when the id is absent.
pub fn update_character(
    db: &mut Db,
    id: IdType,
    fields: CharacterFields,
    timestamp: TimeType,
) -> (r: Result<(), AppError>)
    requires
        old(db).wf(),
    ensures
        final(db).wf(),
        match r {
            Ok(_) => {
                &&& has_character(old(db).characters@, id)
                &&& final(db).characters@ == old(db).characters@.update(
                    char_index(old(db).characters@, id),
                    (Character {
                        id,
                        fields: fields,
                        created_at: character_of(old(db).characters@, id).created_at,
                        updated_at: timestamp,
                    }),
                )
                &&& final(db).skills@ == old(db).skills@
                &&& final(db).tasks@ == old(db).tasks@
                &&& same_counters(*old(db), *final(db))
            },
            Err(e) => {
                &&& e == AppError::NotFound
                &&& !has_character(old(db).characters@, id)
                &&& *final(db) == *old(db)
            },
        },
{
    match find_character_index(&db.characters, id) {
        Some(i) => {
            let row = db.characters.remove(i);
            let updated = Character {
                id,
                fields,
                created_at: row.created_at,
                updated_at: timestamp,
            };
            db.characters.insert(i, updated);
            proof {
                let pre = old(db).characters@;
                lemma_character_of(pre, i as int);
                assert(char_index(pre, id) == i as int);
                assert(db.characters@ =~= pre.update(i as int, updated));
                lemma_update_character_wf(*old(db), *db, i as int, updated);
            }
            Ok(())
        },
        None => Err(AppError::NotFound),
    }
}

/// Sets `updated_at` of the character with the given id; the ancestor
/// notification of the cascade rule, never driven by a request directly.
pub fn touch(db: &mut Db, id: IdType, timestamp: TimeType)
    requires
        old(db).wf(),
        has_character(old(db).characters@, id),
    ensures
        final(db).wf(),
        chars_touched(old(db).characters@, final(db).characters@, id, timestamp),
        final(db).skills@ == old(db).skills@,
        final(db).tasks@ == old(db).tasks@,
        same_counters(*old(db), *final(db)),
{
    match find_character_index(&db.characters, id) {
        Some(i) => {
            let row = db.characters.remove(i);
            let touched = Character {
                id: row.id,
                fields: row.fields,
                created_at: row.created_at,
                updated_at: timestamp,
            };
            db.characters.insert(i, touched);
            proof {
                let pre = old(db).characters@;
                assert(db.characters@ =~= pre.update(i as int, touched));
                assert forall|j: int|
                    0 <= j < pre.len() implies #[trigger] db.characters@[j] == (if pre[j].id == id {
                    (Character {
                        id: pre[j].id,
                        fields: pre[j].fields,
                        created_at: pre[j].created_at,
                        updated_at: timestamp,
                    })
                } else {
                    pre[j]
                }) by {
                    if j != i as int && pre[j].id == id {
                        assert(pre[i as int].id == pre[j].id);
                    }
                }
                lemma_update_character_wf(*old(db), *db, i as int, touched);
            }
        },
        None => {
            // unreachable under the precondition
            proof {
                assert(false);
            }
        },
    }
}

/// Deletes the character with the given id and, through the storage layer's
/// cascade, every skill it owns and every task of those skills; fails with
/// NotFound exactly when the id is absent. The root has no ancestor, so
/// nothing is touched.
pub fn delete_character(db: &mut Db, id: IdType) -> (r: Result<(), AppError>)
    requires
        old(db).wf(),
    ensures
        final(db).wf(),
        match r {
            Ok(_) => {
                &&& has_character(old(db).characters@, id)
                &&& final(db).characters@ == chars_without(old(db).characters@, id)
                &&& final(db).skills@ == skills_without_character(old(db).skills@, id)
                &&& final(db).tasks@ == tasks_without_character(
                    old(db).tasks@,
                    old(db).skills@,
                    id,
                )
                &&& same_counters(*old(db), *final(db))
            },
            Err(e) => {
                &&& e == AppError::NotFound
                &&& !has_character(old(db).characters@, id)
                &&& *final(db) == *old(db)
            },
        },
{
    if find_character_index(&db.characters, id).is_none() {
        return Err(AppError::NotFound);
    }
    let ghost pre = *db;

    // remove the tasks of the character's skills first (child table first)
    let mut kept_tasks: Vec<Task> = Vec::new();
    let mut i: usize = 0;
    while i < db.tasks.len()
        invariant
            i <= db.tasks@.len(),
            *db == pre,
            kept_tasks@ == tasks_without_character(
                db.tasks@.subrange(0, i as int),
                db.skills@,
                id,
            ),
        decreases db.tasks@.len() - i,
    {
        let ghost prefix = db.tasks@.subrange(0, i as int);
        let keep = !skill_is_owned_by(&db.skills, db.tasks[i].skill_id, id);
        if keep {
            kept_tasks.push(db.tasks[i].clone());
        }
        proof {
            assert(db.tasks@.subrange(0, i as int + 1) =~= prefix.push(db.tasks@[i as int]));
            assert(db.tasks@.subrange(0, i as int + 1).drop_last() =~= prefix);
        }
        i += 1;
    }
    proof {
        assert(db.tasks@.subrange(0, db.tasks@.len() as int) =~= db.tasks@);
    }
    db.tasks = kept_tasks;

    // then the skills
    let mut kept_skills: Vec<Skill> = Vec::new();
    let mut j: usize = 0;
    while j < db.skills.len()
        invariant
            j <= db.skills@.len(),
            db.skills@ == pre.skills@,
            kept_skills@ == skills_without_character(db.skills@.subrange(0, j as int), id),
        decreases db.skills@.len() - j,
    {
        let ghost prefix = db.skills@.subrange(0, j as int);
        if db.skills[j].character_id != id {
            kept_skills.push(db.skills[j].clone());
        }
        proof {
            assert(db.skills@.subrange(0, j as int + 1) =~= prefix.push(db.skills@[j as int]));
            assert(db.skills@.subrange(0, j as int + 1).drop_last() =~= prefix);
        }
        j += 1;
    }
    proof {
        assert(db.skills@.subrange(0, db.skills@.len() as int) =~= db.skills@);
    }
    db.skills = kept_skills;

    // finally the character row itself
    let mut kept_chars: Vec<Character> = Vec::new();
    let mut k: usize = 0;
    while k < db.characters.len()
        invariant
            k <= db.characters@.len(),
            db.characters@ == pre.characters@,
            kept_chars@ == chars_without(db.characters@.subrange(0, k as int), id),
        decreases db.characters@.len() - k,
    {
        let ghost prefix = db.characters@.subrange(0, k as int);
        if db.characters[k].id != id {
            kept_chars.push(db.characters[k].clone());
        }
        proof {
            assert(db.characters@.subrange(0, k as int + 1) =~= prefix.push(
                db.characters@[k as int],
            ));
            assert(db.characters@.subrange(0, k as int + 1).drop_last() =~= prefix);
        }
        k += 1;
    }
    proof {
        assert(db.characters@.subrange(0, db.characters@.len() as int) =~= db.characters@);
    }
    db.characters = kept_chars;

    proof {
        lemma_delete_character_wf(pre, *db, id);
    }
    Ok(())
}

/// Whether the skill table holds the given skill id owned by the given
/// character.
fn skill_is_owned_by(skills: &Vec<Skill>, skill_id: IdType, character_id: IdType) -> (r: bool)
    ensures
        r == skill_owned_by(skills@, skill_id, character_id),
{
    let mut i: usize = 0;
    while i < skills.len()
        invariant
            i <= skills@.len(),
            forall|j: int|
                0 <= j < i ==> !(skills@[j].id == skill_id && skills@[j].character_id
                    == character_id),
        decreases skills@.len() - i,
    {
        if skills[i].id == skill_id && skills[i].character_id == character_id {
            return true;
        }
        i += 1;
    }
    false
}

/// Replacing one character row in place, id kept, preserves well-formedness.
proof fn lemma_update_character_wf(pre: Db, post: Db, i: int, row: Character)
    requires
        pre.wf(),
        0 <= i < pre.characters@.len(),
        row.id == pre.characters@[i].id,
        post.characters@ == pre.characters@.update(i, row),
        post.skills@ == pre.skills@,
        post.tasks@ == pre.tasks@,
        same_counters(pre, post),
    ensures
        post.wf(),
{
    let a = pre.characters@;
    let b = post.characters@;
    assert forall|p: int, q: int|
        0 <= p < b.len() && 0 <= q < b.len() && p != q implies b[p].id != b[q].id by {
        assert(a[p].id == b[p].id);
        assert(a[q].id == b[q].id);
    }
    assert forall|k: int|
        0 <= k < post.skills@.len() implies skill_row_wf(
        #[trigger] post.skills@[k],
        post.next_skill_id,
        post.characters@,
    ) by {
        assert(skill_row_wf(pre.skills@[k], pre.next_skill_id, pre.characters@));
        assert forall|m: int| 0 <= m < a.len() implies a[m].id == #[trigger] b[m].id by {}
        lemma_same_ids_has_character(a, b, post.skills@[k].character_id);
    }
}

/// Deleting a character and cascading over its skills and tasks preserves
/// well-formedness.
proof fn lemma_delete_character_wf(pre: Db, post: Db, id: IdType)
    requires
        pre.wf(),
        post.characters@ == chars_without(pre.characters@, id),
        post.skills@ == skills_without_character(pre.skills@, id),
        post.tasks@ == tasks_without_character(pre.tasks@, pre.skills@, id),
        same_counters(pre, post),
    ensures
        post.wf(),
{
    lemma_chars_without_unique(pre.characters@, id);
    lemma_chars_without_contains(pre.characters@, id);
    lemma_skills_without_character_contains(pre.skills@, id);
    lemma_skills_without_character_unique(pre.skills@, id);
    lemma_tasks_without_character_contains(pre.tasks@, pre.skills@, id);
    lemma_tasks_without_character_unique(pre.tasks@, pre.skills@, id);

    assert forall|i: int|
        0 <= i < post.characters@.len() implies character_row_wf(
        #[trigger] post.characters@[i],
        post.next_character_id,
    ) by {
        let x = post.characters@[i];
        assert(post.characters@.contains(x));
        let j = choose|j: int| 0 <= j < pre.characters@.len() && pre.characters@[j] == x;
        assert(character_row_wf(pre.characters@[j], pre.next_character_id));
    }
    assert forall|i: int|
        0 <= i < post.skills@.len() implies skill_row_wf(
        #[trigger] post.skills@[i],
        post.next_skill_id,
        post.characters@,
    ) by {
        let x = post.skills@[i];
        assert(post.skills@.contains(x));
        let j = choose|j: int| 0 <= j < pre.skills@.len() && pre.skills@[j] == x;
        assert(skill_row_wf(pre.skills@[j], pre.next_skill_id, pre.characters@));
        lemma_chars_without_has(pre.characters@, id, x.character_id);
    }
    assert forall|i: int|
        0 <= i < post.tasks@.len() implies task_row_wf(
        #[trigger] post.tasks@[i],
        post.next_task_id,
        post.skills@,
    ) by {
        let x = post.tasks@[i];
        assert(post.tasks@.contains(x));
        let j = choose|j: int| 0 <= j < pre.tasks@.len() && pre.tasks@[j] == x;
        assert(task_row_wf(pre.tasks@[j], pre.next_task_id, pre.skills@));
        // the owning skill is not owned by the deleted character, so it
        // survives the cascade
        let m = choose|m: int| 0 <= m < pre.skills@.len() && pre.skills@[m].id == x.skill_id;
        assert(!skill_owned_by(pre.skills@, x.skill_id, id));
        assert(pre.skills@[m].character_id != id);
        assert(pre.skills@.contains(pre.skills@[m]));
        assert(post.skills@.contains(pre.skills@[m]));
        let n = choose|n: int| 0 <= n < post.skills@.len() && post.skills@[n] == pre.skills@[m];
        assert(has_skill(post.skills@, x.skill_id));
    }
}

/// Membership in `skills_without_character`: exactly the rows owned by
/// another character.
pub proof fn lemma_skills_without_character_contains(s: Seq<Skill>, character_id: IdType)
    ensures
        forall|x: Skill| #[trigger]
            skills_without_character(s, character_id).contains(x) <==> (s.contains(x)
                && x.character_id != character_id),
    decreases s.len(),
{
    if s.len() == 0 {
    } else {
        let pre = s.drop_last();
        let rest = skills_without_character(pre, character_id);
        lemma_skills_without_character_contains(pre, character_id);
        assert forall|x: Skill| #[trigger]
            skills_without_character(s, character_id).contains(x) implies (s.contains(x)
            && x.character_id != character_id) by {
            if s.last().character_id != character_id && x == s.last() {
                assert(s[s.len() - 1] == x);
            } else {
                assert(rest.contains(x));
                assert(pre.contains(x));
                let i = choose|i: int| 0 <= i < pre.len() && pre[i] == x;
                assert(s[i] == x);
            }
        }
        assert forall|x: Skill| s.contains(x) && x.character_id != character_id implies #[trigger]
            skills_without_character(s, character_id).contains(x) by {
            let i = choose|i: int| 0 <= i < s.len() && s[i] == x;
            if i < s.len() - 1 {
                assert(pre[i] == x);
                assert(pre.contains(x));
                assert(rest.contains(x));
                if s.last().character_id != character_id {
                    let j = choose|j: int| 0 <= j < rest.len() && rest[j] == x;
                    assert(rest.push(s.last())[j] == x);
                }
            } else {
                assert(x == s.last());
                assert(rest.push(s.last())[rest.len() as int] == x);
            }
        }
    }
}

/// Which skill ids survive the removal of a character's skills.
pub proof fn lemma_skills_without_character_has(
    s: Seq<Skill>,
    character_id: IdType,
    skill_id: IdType,
)
    ensures
        has_skill(skills_without_character(s, character_id), skill_id) <==> exists|i: int|
            0 <= i < s.len() && s[i].id == skill_id && s[i].character_id != character_id,
{
    lemma_skills_without_character_contains(s, character_id);
    let out = skills_without_character(s, character_id);
    if has_skill(out, skill_id) {
        let i = choose|i: int| 0 <= i < out.len() && out[i].id == skill_id;
        assert(out.contains(out[i]));
        let x = out[i];
        let j = choose|j: int| 0 <= j < s.len() && s[j] == x;
        assert(s[j].id == skill_id && s[j].character_id != character_id);
    }
    if exists|i: int|
        0 <= i < s.len() && s[i].id == skill_id && s[i].character_id != character_id {
        let i = choose|i: int|
            0 <= i < s.len() && s[i].id == skill_id && s[i].character_id != character_id;
        assert(s.contains(s[i]));
        assert(out.contains(s[i]));
        let j = choose|j: int| 0 <= j < out.len() && out[j] == s[i];
        assert(out[j].id == skill_id);
    }
}

/// Removal by owner keeps the remaining skill ids unique.
pub proof fn lemma_skills_without_character_unique(s: Seq<Skill>, character_id: IdType)
    requires
        unique_skill_ids(s),
    ensures
        unique_skill_ids(skills_without_character(s, character_id)),
    decreases s.len(),
{
    if s.len() == 0 {
    } else {
        let pre = s.drop_last();
        let rest = skills_without_character(pre, character_id);
        assert(unique_skill_ids(pre));
        lemma_skills_without_character_unique(pre, character_id);
        lemma_skills_without_character_contains(pre, character_id);
        if s.last().character_id != character_id {
            assert forall|j: int| 0 <= j < rest.len() implies rest[j].id != s.last().id by {
                assert(rest.contains(rest[j]));
                assert(pre.contains(rest[j]));
                let i = choose|i: int| 0 <= i < pre.len() && pre[i] == rest[j];
                assert(s[i].id != s[s.len() - 1].id);
            }
            let out = rest.push(s.last());
            assert forall|i: int, j: int|
                0 <= i < out.len() && 0 <= j < out.len() && i != j implies out[i].id
                != out[j].id by {
                if i < rest.len() && j < rest.len() {
                    assert(out[i] == rest[i]);
                    assert(out[j] == rest[j]);
                }
            }
        }
    }
}

/// Membership in `tasks_without_character`: exactly the tasks whose owning
/// skill is owned by another character.
pub proof fn lemma_tasks_without_character_contains(
    tasks: Seq<Task>,
    skills: Seq<Skill>,
    character_id: IdType,
)
    ensures
        forall|x: Task| #[trigger]
            tasks_without_character(tasks, skills, character_id).contains(x) <==> (tasks.contains(
                x,
            ) && !skill_owned_by(skills, x.skill_id, character_id)),
    decreases tasks.len(),
{
    if tasks.len() == 0 {
    } else {
        let pre = tasks.drop_last();
        let rest = tasks_without_character(pre, skills, character_id);
        lemma_tasks_without_character_contains(pre, skills, character_id);
        assert forall|x: Task| #[trigger]
            tasks_without_character(tasks, skills, character_id).contains(x) implies (
        tasks.contains(x) && !skill_owned_by(skills, x.skill_id, character_id)) by {
            if !skill_owned_by(skills, tasks.last().skill_id, character_id) && x == tasks.last() {
                assert(tasks[tasks.len() - 1] == x);
            } else {
                assert(rest.contains(x));
                assert(pre.contains(x));
                let i = choose|i: int| 0 <= i < pre.len() && pre[i] == x;
                assert(tasks[i] == x);
            }
        }
        assert forall|x: Task|
            tasks.contains(x) && !skill_owned_by(skills, x.skill_id, character_id) implies #[trigger]
            tasks_without_character(tasks, skills, character_id).contains(x) by {
            let i = choose|i: int| 0 <= i < tasks.len() && tasks[i] == x;
            if i < tasks.len() - 1 {
                assert(pre[i] == x);
                assert(pre.contains(x));
                assert(rest.contains(x));
                if !skill_owned_by(skills, tasks.last().skill_id, character_id) {
                    let j = choose|j: int| 0 <= j < rest.len() && rest[j] == x;
                    assert(rest.push(tasks.last())[j] == x);
                }
            } else {
                assert(x == tasks.last());
                assert(rest.push(tasks.last())[rest.len() as int] == x);
            }
        }
    }
}

/// The cascade keeps the remaining task ids unique.
pub proof fn lemma_tasks_without_character_unique(
    tasks: Seq<Task>,
    skills: Seq<Skill>,
    character_id: IdType,
)
    requires
        unique_task_ids(tasks),
    ensures
        unique_task_ids(tasks_without_character(tasks, skills, character_id)),
    decreases tasks.len(),
{
    if tasks.len() == 0 {
    } else {
        let pre = tasks.drop_last();
        let rest = tasks_without_character(pre, skills, character_id);
        assert(unique_task_ids(pre));
        lemma_tasks_without_character_unique(pre, skills, character_id);
        lemma_tasks_without_character_contains(pre, skills, character_id);
        if !skill_owned_by(skills, tasks.last().skill_id, character_id) {
            assert forall|j: int| 0 <= j < rest.len() implies rest[j].id != tasks.last().id by {
                assert(rest.contains(rest[j]));
                assert(pre.contains(rest[j]));
                let i = choose|i: int| 0 <= i < pre.len() && pre[i] == rest[j];
                assert(tasks[i].id != tasks[tasks.len() - 1].id);
            }
            let out = rest.push(tasks.last());
            assert forall|i: int, j: int|
                0 <= i < out.len() && 0 <= j < out.len() && i != j implies out[i].id
                != out[j].id by {
                if i < rest.len() && j < rest.len() {
                    assert(out[i] == rest[i]);
                    assert(out[j] == rest[j]);
                }
            }
        }
    }
}

} // verus!
