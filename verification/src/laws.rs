//! The laws of the store, stated over the dispatcher's contract
//! (`execute_spec`) and the table views, and proved from what the repository
//! operations ensure: one timestamp per logical mutation across every touched
//! row, cascade of deletions, creation round trips, and idempotence of the
//! reset operation.

use vstd::prelude::*;

use crate::db::character::{chars_touched, chars_without, skills_without_character, tasks_without_character};
use crate::db::skill::{skills_touched, skills_without};
use crate::db::task::{lemma_tasks_without_skill_contains, tasks_without, tasks_without_skill};
use crate::db::character::{
    lemma_chars_without_has, lemma_skills_without_character_has,
    lemma_tasks_without_character_contains,
};
use crate::db::{execute_spec, same_counters, Db, Query, QueryResult};
use crate::model::character::{
    char_index, character_of, has_character, lemma_character_of, unique_character_ids, Character,
    CharacterFields,
};
use crate::model::skill::{
    has_skill, lemma_skill_of, skill_index, skill_of, skill_owned_by, unique_skill_ids, Skill,
    SkillFields,
};
use crate::model::task::{has_task, lemma_task_of, task_index, task_of, Task, TaskFields};
use crate::util::{IdType, TimeType};
use crate::AppError;

verus! {

/// Touching a character leaves it carrying the touch timestamp and changes
/// nothing else about it.
pub proof fn lemma_chars_touched_of(
    pre: Seq<Character>,
    post: Seq<Character>,
    id: IdType,
    t: TimeType,
)
    requires
        unique_character_ids(pre),
        has_character(pre, id),
        chars_touched(pre, post, id, t),
    ensures
        unique_character_ids(post),
        has_character(post, id),
        character_of(post, id).updated_at == t,
        character_of(post, id).created_at == character_of(pre, id).created_at,
        character_of(post, id).fields == character_of(pre, id).fields,
        character_of(post, id).id == id,
{
    let i = char_index(pre, id);
    assert(0 <= i < pre.len() && pre[i].id == id);
    lemma_character_of(pre, i);
    assert forall|j: int| 0 <= j < post.len() implies post[j].id == #[trigger] pre[j].id by {}
    assert forall|p: int, q: int|
        0 <= p < post.len() && 0 <= q < post.len() && p != q implies post[p].id != post[q].id by {
        assert(pre[p].id == post[p].id);
        assert(pre[q].id == post[q].id);
    }
    assert(post[i].id == id);
    lemma_character_of(post, i);
}

/// Touching a skill leaves it carrying the touch timestamp and changes
/// nothing else about it.
pub proof fn lemma_skills_touched_of(pre: Seq<Skill>, post: Seq<Skill>, id: IdType, t: TimeType)
    requires
        unique_skill_ids(pre),
        has_skill(pre, id),
        skills_touched(pre, post, id, t),
    ensures
        unique_skill_ids(post),
        has_skill(post, id),
        skill_of(post, id).updated_at == t,
        skill_of(post, id).created_at == skill_of(pre, id).created_at,
        skill_of(post, id).fields == skill_of(pre, id).fields,
        skill_of(post, id).character_id == skill_of(pre, id).character_id,
        skill_of(post, id).id == id,
{
    let i = skill_index(pre, id);
    assert(0 <= i < pre.len() && pre[i].id == id);
    lemma_skill_of(pre, i);
    assert forall|j: int| 0 <= j < post.len() implies post[j].id == #[trigger] pre[j].id by {}
    assert forall|p: int, q: int|
        0 <= p < post.len() && 0 <= q < post.len() && p != q implies post[p].id != post[q].id by {
        assert(pre[p].id == post[p].id);
        assert(pre[q].id == post[q].id);
    }
    assert(post[i].id == id);
    lemma_skill_of(post, i);
}

/// Law: creating a skill stamps the new row and the owning character with
/// the one timestamp of the operation.
pub proof fn lemma_cascade_timestamp_create_skill(
    pre: Db,
    post: Db,
    character_id: IdType,
    fields: SkillFields,
    t: TimeType,
    r: Result<QueryResult, AppError>,
)
    requires
        pre.wf(),
        execute_spec(pre, post, Query::CreateCharacterSkill(character_id, fields), t, r),
        r is Ok,
    ensures
        has_skill(post.skills@, pre.next_skill_id),
        skill_of(post.skills@, pre.next_skill_id).updated_at == t,
        has_character(post.characters@, character_id),
        character_of(post.characters@, character_id).updated_at == t,
{
    let row = (Skill { id: pre.next_skill_id, fields, character_id, created_at: t, updated_at: t });
    assert(post.skills@ == pre.skills@.push(row));
    assert forall|p: int, q: int|
        0 <= p < post.skills@.len() && 0 <= q < post.skills@.len() && p != q implies post.skills@[p].id
        != post.skills@[q].id by {
        if p < pre.skills@.len() && q < pre.skills@.len() {
            assert(post.skills@[p] == pre.skills@[p]);
            assert(post.skills@[q] == pre.skills@[q]);
        }
    }
    lemma_skill_of(post.skills@, post.skills@.len() - 1);
    lemma_chars_touched_of(pre.characters@, post.characters@, character_id, t);
}

/// Law: updating a skill stamps the row and the owning character with the
/// one timestamp of the operation.
pub proof fn lemma_cascade_timestamp_update_skill(
    pre: Db,
    post: Db,
    id: IdType,
    fields: SkillFields,
    t: TimeType,
    r: Result<QueryResult, AppError>,
)
    requires
        pre.wf(),
        execute_spec(pre, post, Query::UpdateSkill(id, fields), t, r),
        r is Ok,
    ensures
        has_skill(post.skills@, id),
        skill_of(post.skills@, id).updated_at == t,
        has_character(post.characters@, skill_of(pre.skills@, id).character_id),
        character_of(post.characters@, skill_of(pre.skills@, id).character_id).updated_at == t,
{
    let i = skill_index(pre.skills@, id);
    assert(0 <= i < pre.skills@.len() && pre.skills@[i].id == id);
    lemma_skill_of(pre.skills@, i);
    assert forall|p: int, q: int|
        0 <= p < post.skills@.len() && 0 <= q < post.skills@.len() && p != q implies post.skills@[p].id
        != post.skills@[q].id by {
        assert(pre.skills@[p].id == post.skills@[p].id);
        assert(pre.skills@[q].id == post.skills@[q].id);
    }
    assert(post.skills@[i].id == id);
    lemma_skill_of(post.skills@, i);
    assert(crate::db::skill_row_wf(pre.skills@[i], pre.next_skill_id, pre.characters@));
    lemma_chars_touched_of(
        pre.characters@,
        post.characters@,
        skill_of(pre.skills@, id).character_id,
        t,
    );
}

/// Law: deleting a skill stamps the owning character with the one timestamp
/// of the operation.
pub proof fn lemma_cascade_timestamp_delete_skill(
    pre: Db,
    post: Db,
    id: IdType,
    t: TimeType,
    r: Result<QueryResult, AppError>,
)
    requires
        pre.wf(),
        execute_spec(pre, post, Query::DeleteSkill(id), t, r),
        r is Ok,
    ensures
        has_character(post.characters@, skill_of(pre.skills@, id).character_id),
        character_of(post.characters@, skill_of(pre.skills@, id).character_id).updated_at == t,
{
    let i = skill_index(pre.skills@, id);
    assert(0 <= i < pre.skills@.len() && pre.skills@[i].id == id);
    lemma_skill_of(pre.skills@, i);
    lemma_chars_touched_of(
        pre.characters@,
        post.characters@,
        skill_of(pre.skills@, id).character_id,
        t,
    );
}

/// Law: creating a task stamps the new row, the owning skill, and that
/// skill's character with the one timestamp of the operation.
pub proof fn lemma_cascade_timestamp_create_task(
    pre: Db,
    post: Db,
    skill_id: IdType,
    fields: TaskFields,
    t: TimeType,
    r: Result<QueryResult, AppError>,
)
    requires
        pre.wf(),
        execute_spec(pre, post, Query::CreateSkillTask(skill_id, fields), t, r),
        r is Ok,
    ensures
        has_task(post.tasks@, pre.next_task_id),
        task_of(post.tasks@, pre.next_task_id).updated_at == t,
        has_skill(post.skills@, skill_id),
        skill_of(post.skills@, skill_id).updated_at == t,
        has_character(post.characters@, skill_of(pre.skills@, skill_id).character_id),
        character_of(post.characters@, skill_of(pre.skills@, skill_id).character_id).updated_at
            == t,
{
    let row = (Task { id: pre.next_task_id, fields, skill_id, created_at: t, updated_at: t });
    assert(post.tasks@ == pre.tasks@.push(row));
    assert forall|p: int, q: int|
        0 <= p < post.tasks@.len() && 0 <= q < post.tasks@.len() && p != q implies post.tasks@[p].id
        != post.tasks@[q].id by {
        if p < pre.tasks@.len() && q < pre.tasks@.len() {
            assert(post.tasks@[p] == pre.tasks@[p]);
            assert(post.tasks@[q] == pre.tasks@[q]);
        }
    }
    lemma_task_of(post.tasks@, post.tasks@.len() - 1);
    lemma_skills_touched_of(pre.skills@, post.skills@, skill_id, t);
    let i = skill_index(pre.skills@, skill_id);
    assert(0 <= i < pre.skills@.len() && pre.skills@[i].id == skill_id);
    lemma_skill_of(pre.skills@, i);
    lemma_chars_touched_of(
        pre.characters@,
        post.characters@,
        skill_of(pre.skills@, skill_id).character_id,
        t,
    );
}

/// Law: updating a task stamps the row, the owning skill, and that skill's
/// character with the one timestamp of the operation.
pub proof fn lemma_cascade_timestamp_update_task(
    pre: Db,
    post: Db,
    id: IdType,
    fields: TaskFields,
    t: TimeType,
    r: Result<QueryResult, AppError>,
)
    requires
        pre.wf(),
        execute_spec(pre, post, Query::UpdateTask(id, fields), t, r),
        r is Ok,
    ensures
        has_task(post.tasks@, id),
        task_of(post.tasks@, id).updated_at == t,
        has_skill(post.skills@, task_of(pre.tasks@, id).skill_id),
        skill_of(post.skills@, task_of(pre.tasks@, id).skill_id).updated_at == t,
        has_character(
            post.characters@,
            skill_of(pre.skills@, task_of(pre.tasks@, id).skill_id).character_id,
        ),
        character_of(
            post.characters@,
            skill_of(pre.skills@, task_of(pre.tasks@, id).skill_id).character_id,
        ).updated_at == t,
{
    let i = task_index(pre.tasks@, id);
    assert(0 <= i < pre.tasks@.len() && pre.tasks@[i].id == id);
    lemma_task_of(pre.tasks@, i);
    assert forall|p: int, q: int|
        0 <= p < post.tasks@.len() && 0 <= q < post.tasks@.len() && p != q implies post.tasks@[p].id
        != post.tasks@[q].id by {
        assert(pre.tasks@[p].id == post.tasks@[p].id);
        assert(pre.tasks@[q].id == post.tasks@[q].id);
    }
    assert(post.tasks@[i].id == id);
    lemma_task_of(post.tasks@, i);
    let sid = task_of(pre.tasks@, id).skill_id;
    lemma_skills_touched_of(pre.skills@, post.skills@, sid, t);
    let k = skill_index(pre.skills@, sid);
    assert(0 <= k < pre.skills@.len() && pre.skills@[k].id == sid);
    lemma_skill_of(pre.skills@, k);
    lemma_chars_touched_of(
        pre.characters@,
        post.characters@,
        skill_of(pre.skills@, sid).character_id,
        t,
    );
}

/// Law: deleting a task stamps the owning skill and that skill's character
/// with the one timestamp of the operation.
pub proof fn lemma_cascade_timestamp_delete_task(
    pre: Db,
    post: Db,
    id: IdType,
    t: TimeType,
    r: Result<QueryResult, AppError>,
)
    requires
        pre.wf(),
        execute_spec(pre, post, Query::DeleteTask(id), t, r),
        r is Ok,
    ensures
        has_skill(post.skills@, task_of(pre.tasks@, id).skill_id),
        skill_of(post.skills@, task_of(pre.tasks@, id).skill_id).updated_at == t,
        has_character(
            post.characters@,
            skill_of(pre.skills@, task_of(pre.tasks@, id).skill_id).character_id,
        ),
        character_of(
            post.characters@,
            skill_of(pre.skills@, task_of(pre.tasks@, id).skill_id).character_id,
        ).updated_at == t,
{
    let i = task_index(pre.tasks@, id);
    assert(0 <= i < pre.tasks@.len() && pre.tasks@[i].id == id);
    lemma_task_of(pre.tasks@, i);
    let sid = task_of(pre.tasks@, id).skill_id;
    lemma_skills_touched_of(pre.skills@, post.skills@, sid, t);
    let k = skill_index(pre.skills@, sid);
    assert(0 <= k < pre.skills@.len() && pre.skills@[k].id == sid);
    lemma_skill_of(pre.skills@, k);
    lemma_chars_touched_of(
        pre.characters@,
        post.characters@,
        skill_of(pre.skills@, sid).character_id,
        t,
    );
}

/// Law: deleting a character removes it, all its skills and all their
/// tasks; a subsequent lookup of any removed id finds nothing, so it fails
/// with NotFound by the lookup contracts.
pub proof fn lemma_delete_character_cascade(pre: Db, post: Db, id: IdType)
    requires
        pre.wf(),
        post.characters@ == chars_without(pre.characters@, id),
        post.skills@ == skills_without_character(pre.skills@, id),
        post.tasks@ == tasks_without_character(pre.tasks@, pre.skills@, id),
    ensures
        !has_character(post.characters@, id),
        forall|s: Skill|
            pre.skills@.contains(s) && s.character_id == id ==> !has_skill(
                post.skills@,
                #[trigger] s.id,
            ),
        forall|x: Task|
            pre.tasks@.contains(x) && skill_owned_by(pre.skills@, x.skill_id, id) ==> !has_task(
                post.tasks@,
                #[trigger] x.id,
            ),
{
    lemma_chars_without_has(pre.characters@, id, id);
    assert forall|s: Skill|
        pre.skills@.contains(s) && s.character_id == id implies !has_skill(
        post.skills@,
        #[trigger] s.id,
    ) by {
        lemma_skills_without_character_has(pre.skills@, id, s.id);
        if has_skill(post.skills@, s.id) {
            let i = choose|i: int|
                0 <= i < pre.skills@.len() && pre.skills@[i].id == s.id
                    && pre.skills@[i].character_id != id;
            let j = choose|j: int| 0 <= j < pre.skills@.len() && pre.skills@[j] == s;
            assert(i == j);
        }
    }
    lemma_tasks_without_character_contains(pre.tasks@, pre.skills@, id);
    assert forall|x: Task|
        pre.tasks@.contains(x) && skill_owned_by(pre.skills@, x.skill_id, id) implies !has_task(
        post.tasks@,
        #[trigger] x.id,
    ) by {
        if has_task(post.tasks@, x.id) {
            let i = choose|i: int| 0 <= i < post.tasks@.len() && post.tasks@[i].id == x.id;
            let y = post.tasks@[i];
            assert(post.tasks@.contains(y));
            assert(pre.tasks@.contains(y) && !skill_owned_by(pre.skills@, y.skill_id, id));
            let p = choose|p: int| 0 <= p < pre.tasks@.len() && pre.tasks@[p] == y;
            let q = choose|q: int| 0 <= q < pre.tasks@.len() && pre.tasks@[q] == x;
            assert(p == q);
        }
    }
}

/// Law: deleting a skill removes it and all its tasks; a subsequent lookup
/// of any removed id finds nothing, so it fails with NotFound by the lookup
/// contracts.
pub proof fn lemma_delete_skill_cascade(pre: Db, post: Db, id: IdType)
    requires
        pre.wf(),
        post.skills@ == skills_without(pre.skills@, id),
        post.tasks@ == tasks_without_skill(pre.tasks@, id),
    ensures
        !has_skill(post.skills@, id),
        forall|x: Task|
            pre.tasks@.contains(x) && x.skill_id == id ==> !has_task(
                post.tasks@,
                #[trigger] x.id,
            ),
{
    crate::db::skill::lemma_skills_without_has(pre.skills@, id, id);
    lemma_tasks_without_skill_contains(pre.tasks@, id);
    assert forall|x: Task|
        pre.tasks@.contains(x) && x.skill_id == id implies !has_task(
        post.tasks@,
        #[trigger] x.id,
    ) by {
        if has_task(post.tasks@, x.id) {
            let i = choose|i: int| 0 <= i < post.tasks@.len() && post.tasks@[i].id == x.id;
            let y = post.tasks@[i];
            assert(post.tasks@.contains(y));
            assert(pre.tasks@.contains(y) && y.skill_id != id);
            let p = choose|p: int| 0 <= p < pre.tasks@.len() && pre.tasks@[p] == y;
            let q = choose|q: int| 0 <= q < pre.tasks@.len() && pre.tasks@[q] == x;
            assert(p == q);
        }
    }
}

/// Law: deleting a task removes it, so a subsequent lookup of the id fails
/// with NotFound by the lookup contract.
pub proof fn lemma_delete_task_cascade(pre: Db, post: Db, id: IdType)
    requires
        pre.wf(),
        post.tasks@ == tasks_without(pre.tasks@, id),
    ensures
        !has_task(post.tasks@, id),
{
    crate::db::task::lemma_tasks_without_has(pre.tasks@, id, id);
}

/// Law: a character just created is returned intact by a lookup of its new
/// id, its mutable fields are the ones handed in, and its two timestamps
/// coincide.
pub proof fn lemma_create_character_round_trip(
    pre: Db,
    post: Db,
    fields: CharacterFields,
    t: TimeType,
)
    requires
        pre.wf(),
        post.characters@ == pre.characters@.push(
            (Character {
                id: pre.next_character_id,
                fields,
                created_at: t,
                updated_at: t,
            }),
        ),
    ensures
        has_character(post.characters@, pre.next_character_id),
        character_of(post.characters@, pre.next_character_id).fields == fields,
        character_of(post.characters@, pre.next_character_id).created_at == character_of(
            post.characters@,
            pre.next_character_id,
        ).updated_at,
{
    assert forall|p: int, q: int|
        0 <= p < post.characters@.len() && 0 <= q < post.characters@.len() && p
        != q implies post.characters@[p].id != post.characters@[q].id by {
        if p < pre.characters@.len() && q < pre.characters@.len() {
            assert(post.characters@[p] == pre.characters@[p]);
            assert(post.characters@[q] == pre.characters@[q]);
        }
    }
    lemma_character_of(post.characters@, post.characters@.len() - 1);
}

/// Law: a skill just created is returned intact by a lookup of its new id,
/// its mutable fields are the ones handed in, and its two timestamps
/// coincide.
pub proof fn lemma_create_skill_round_trip(
    pre: Db,
    post: Db,
    character_id: IdType,
    fields: SkillFields,
    t: TimeType,
)
    requires
        pre.wf(),
        post.skills@ == pre.skills@.push(
            (Skill {
                id: pre.next_skill_id,
                fields,
                character_id,
                created_at: t,
                updated_at: t,
            }),
        ),
    ensures
        has_skill(post.skills@, pre.next_skill_id),
        skill_of(post.skills@, pre.next_skill_id).fields == fields,
        skill_of(post.skills@, pre.next_skill_id).character_id == character_id,
        skill_of(post.skills@, pre.next_skill_id).created_at == skill_of(
            post.skills@,
            pre.next_skill_id,
        ).updated_at,
{
    assert forall|p: int, q: int|
        0 <= p < post.skills@.len() && 0 <= q < post.skills@.len() && p != q implies post.skills@[p].id
        != post.skills@[q].id by {
        if p < pre.skills@.len() && q < pre.skills@.len() {
            assert(post.skills@[p] == pre.skills@[p]);
            assert(post.skills@[q] == pre.skills@[q]);
        }
    }
    lemma_skill_of(post.skills@, post.skills@.len() - 1);
}

/// Law: a task just created is returned intact by a lookup of its new id,
/// its mutable fields are the ones handed in, and its two timestamps
/// coincide.
pub proof fn lemma_create_task_round_trip(
    pre: Db,
    post: Db,
    skill_id: IdType,
    fields: TaskFields,
    t: TimeType,
)
    requires
        pre.wf(),
        post.tasks@ == pre.tasks@.push(
            (Task { id: pre.next_task_id, fields, skill_id, created_at: t, updated_at: t }),
        ),
    ensures
        has_task(post.tasks@, pre.next_task_id),
        task_of(post.tasks@, pre.next_task_id).fields == fields,
        task_of(post.tasks@, pre.next_task_id).skill_id == skill_id,
        task_of(post.tasks@, pre.next_task_id).created_at == task_of(
            post.tasks@,
            pre.next_task_id,
        ).updated_at,
{
    assert forall|p: int, q: int|
        0 <= p < post.tasks@.len() && 0 <= q < post.tasks@.len() && p != q implies post.tasks@[p].id
        != post.tasks@[q].id by {
        if p < pre.tasks@.len() && q < pre.tasks@.len() {
            assert(post.tasks@[p] == pre.tasks@[p]);
            assert(post.tasks@[q] == pre.tasks@[q]);
        }
    }
    lemma_task_of(post.tasks@, post.tasks@.len() - 1);
}

/// Every row of every table has `updated_at >= created_at`.
pub open spec fn timestamps_ordered(db: Db) -> bool {
    &&& forall|i: int|
        0 <= i < db.characters@.len() ==> (#[trigger] db.characters@[i]).created_at
            <= db.characters@[i].updated_at
    &&& forall|i: int|
        0 <= i < db.skills@.len() ==> (#[trigger] db.skills@[i]).created_at
            <= db.skills@[i].updated_at
    &&& forall|i: int|
        0 <= i < db.tasks@.len() ==> (#[trigger] db.tasks@[i]).created_at
            <= db.tasks@[i].updated_at
}

/// The timestamp is not older than any row's creation; a monotone clock
/// observes such a timestamp for every new operation, since every
/// `created_at` in the store came from an earlier observation.
pub open spec fn fresh_timestamp(db: Db, t: TimeType) -> bool {
    &&& forall|i: int|
        0 <= i < db.characters@.len() ==> (#[trigger] db.characters@[i]).created_at <= t
    &&& forall|i: int| 0 <= i < db.skills@.len() ==> (#[trigger] db.skills@[i]).created_at <= t
    &&& forall|i: int| 0 <= i < db.tasks@.len() ==> (#[trigger] db.tasks@[i]).created_at <= t
}

/// Touching characters keeps `updated_at >= created_at` for a timestamp not
/// older than any creation.
proof fn lemma_chars_touched_ordered(a: Seq<Character>, b: Seq<Character>, id: IdType, t: TimeType)
    requires
        chars_touched(a, b, id, t),
        forall|i: int| 0 <= i < a.len() ==> (#[trigger] a[i]).created_at <= a[i].updated_at,
        forall|i: int| 0 <= i < a.len() ==> (#[trigger] a[i]).created_at <= t,
    ensures
        forall|i: int| 0 <= i < b.len() ==> (#[trigger] b[i]).created_at <= b[i].updated_at,
{
    assert forall|i: int|
        0 <= i < b.len() implies (#[trigger] b[i]).created_at <= b[i].updated_at by {
        assert(a[i].created_at <= a[i].updated_at);
        assert(a[i].created_at <= t);
    }
}

/// Touching skills keeps `updated_at >= created_at` for a timestamp not
/// older than any creation.
proof fn lemma_skills_touched_ordered(a: Seq<Skill>, b: Seq<Skill>, id: IdType, t: TimeType)
    requires
        skills_touched(a, b, id, t),
        forall|i: int| 0 <= i < a.len() ==> (#[trigger] a[i]).created_at <= a[i].updated_at,
        forall|i: int| 0 <= i < a.len() ==> (#[trigger] a[i]).created_at <= t,
    ensures
        forall|i: int| 0 <= i < b.len() ==> (#[trigger] b[i]).created_at <= b[i].updated_at,
{
    assert forall|i: int|
        0 <= i < b.len() implies (#[trigger] b[i]).created_at <= b[i].updated_at by {
        assert(a[i].created_at <= a[i].updated_at);
        assert(a[i].created_at <= t);
    }
}

/// Law: every dispatched operation keeps `updated_at >= created_at` on every
/// row, provided the operation's timestamp is not older than any row's
/// creation — which a monotone clock guarantees. The clock itself is outside
/// the model, so the guarantee is stated under that condition.
pub proof fn lemma_execute_keeps_timestamps_ordered(
    pre: Db,
    post: Db,
    query: Query,
    t: TimeType,
    r: Result<QueryResult, AppError>,
)
    requires
        pre.wf(),
        timestamps_ordered(pre),
        fresh_timestamp(pre, t),
        execute_spec(pre, post, query, t, r),
    ensures
        timestamps_ordered(post),
{
    match query {
        Query::GetCharacterList | Query::GetCharacter(_) | Query::GetCharacterSkillList(_)
        | Query::GetCharacterTaskList(_) | Query::GetSkillList | Query::GetSkill(_)
        | Query::GetSkillTaskList(_) | Query::GetTaskList | Query::GetTask(_)
        | Query::ResetDB => {
        },
        Query::CreateCharacter(_) => {
            if r is Ok {
                assert forall|i: int|
                    0 <= i < post.characters@.len() implies (
                #[trigger] post.characters@[i]).created_at <= post.characters@[i].updated_at by {
                    if i < pre.characters@.len() {
                        assert(post.characters@[i] == pre.characters@[i]);
                    }
                }
            }
        },
        Query::UpdateCharacter(id, _) => {
            if r is Ok {
                let idx = char_index(pre.characters@, id);
                assert(0 <= idx < pre.characters@.len() && pre.characters@[idx].id == id);
                assert forall|i: int|
                    0 <= i < post.characters@.len() implies (
                #[trigger] post.characters@[i]).created_at <= post.characters@[i].updated_at by {
                    assert(pre.characters@[i].created_at <= t);
                }
            }
        },
        Query::DeleteCharacter(id) => {
            if r is Ok {
                lemma_chars_without_sub_ordered(pre, post, id);
            }
        },
        Query::CreateCharacterSkill(character_id, _) => {
            if r is Ok {
                lemma_chars_touched_ordered(pre.characters@, post.characters@, character_id, t);
                assert forall|i: int|
                    0 <= i < post.skills@.len() implies (#[trigger] post.skills@[i]).created_at
                    <= post.skills@[i].updated_at by {
                    if i < pre.skills@.len() {
                        assert(post.skills@[i] == pre.skills@[i]);
                    }
                }
            }
        },
        Query::UpdateSkill(id, _) => {
            if r is Ok {
                lemma_chars_touched_ordered(
                    pre.characters@,
                    post.characters@,
                    skill_of(pre.skills@, id).character_id,
                    t,
                );
                let idx = skill_index(pre.skills@, id);
                assert(0 <= idx < pre.skills@.len() && pre.skills@[idx].id == id);
                assert forall|i: int|
                    0 <= i < post.skills@.len() implies (#[trigger] post.skills@[i]).created_at
                    <= post.skills@[i].updated_at by {
                    assert(pre.skills@[i].created_at <= t);
                }
            }
        },
        Query::DeleteSkill(id) => {
            if r is Ok {
                lemma_chars_touched_ordered(
                    pre.characters@,
                    post.characters@,
                    skill_of(pre.skills@, id).character_id,
                    t,
                );
                crate::db::skill::lemma_skills_without_contains(pre.skills@, id);
                assert forall|i: int|
                    0 <= i < post.skills@.len() implies (#[trigger] post.skills@[i]).created_at
                    <= post.skills@[i].updated_at by {
                    assert(post.skills@.contains(post.skills@[i]));
                    let j = choose|j: int|
                        0 <= j < pre.skills@.len() && pre.skills@[j] == post.skills@[i];
                    assert(pre.skills@[j].created_at <= pre.skills@[j].updated_at);
                }
                lemma_tasks_without_skill_contains(pre.tasks@, id);
                assert forall|i: int|
                    0 <= i < post.tasks@.len() implies (#[trigger] post.tasks@[i]).created_at
                    <= post.tasks@[i].updated_at by {
                    assert(post.tasks@.contains(post.tasks@[i]));
                    let j = choose|j: int|
                        0 <= j < pre.tasks@.len() && pre.tasks@[j] == post.tasks@[i];
                    assert(pre.tasks@[j].created_at <= pre.tasks@[j].updated_at);
                }
            }
        },
        Query::CreateSkillTask(skill_id, _) => {
            if r is Ok {
                lemma_skills_touched_ordered(pre.skills@, post.skills@, skill_id, t);
                lemma_chars_touched_ordered(
                    pre.characters@,
                    post.characters@,
                    skill_of(pre.skills@, skill_id).character_id,
                    t,
                );
                assert forall|i: int|
                    0 <= i < post.tasks@.len() implies (#[trigger] post.tasks@[i]).created_at
                    <= post.tasks@[i].updated_at by {
                    if i < pre.tasks@.len() {
                        assert(post.tasks@[i] == pre.tasks@[i]);
                    }
                }
            }
        },
        Query::UpdateTask(id, _) => {
            if r is Ok {
                let sid = task_of(pre.tasks@, id).skill_id;
                lemma_skills_touched_ordered(pre.skills@, post.skills@, sid, t);
                lemma_chars_touched_ordered(
                    pre.characters@,
                    post.characters@,
                    skill_of(pre.skills@, sid).character_id,
                    t,
                );
                let idx = task_index(pre.tasks@, id);
                assert(0 <= idx < pre.tasks@.len() && pre.tasks@[idx].id == id);
                assert forall|i: int|
                    0 <= i < post.tasks@.len() implies (#[trigger] post.tasks@[i]).created_at
                    <= post.tasks@[i].updated_at by {
                    assert(pre.tasks@[i].created_at <= t);
                }
            }
        },
        Query::DeleteTask(id) => {
            if r is Ok {
                let sid = task_of(pre.tasks@, id).skill_id;
                lemma_skills_touched_ordered(pre.skills@, post.skills@, sid, t);
                lemma_chars_touched_ordered(
                    pre.characters@,
                    post.characters@,
                    skill_of(pre.skills@, sid).character_id,
                    t,
                );
                crate::db::task::lemma_tasks_without_contains(pre.tasks@, id);
                assert forall|i: int|
                    0 <= i < post.tasks@.len() implies (#[trigger] post.tasks@[i]).created_at
                    <= post.tasks@[i].updated_at by {
                    assert(post.tasks@.contains(post.tasks@[i]));
                    let j = choose|j: int|
                        0 <= j < pre.tasks@.len() && pre.tasks@[j] == post.tasks@[i];
                    assert(pre.tasks@[j].created_at <= pre.tasks@[j].updated_at);
                }
            }
        },
    }
}

/// Deleting a character leaves only rows that already were in the store, so
/// their timestamp ordering carries over.
proof fn lemma_chars_without_sub_ordered(pre: Db, post: Db, id: IdType)
    requires
        pre.wf(),
        timestamps_ordered(pre),
        post.characters@ == chars_without(pre.characters@, id),
        post.skills@ == skills_without_character(pre.skills@, id),
        post.tasks@ == tasks_without_character(pre.tasks@, pre.skills@, id),
    ensures
        timestamps_ordered(post),
{
    crate::db::character::lemma_chars_without_contains(pre.characters@, id);
    crate::db::character::lemma_skills_without_character_contains(pre.skills@, id);
    lemma_tasks_without_character_contains(pre.tasks@, pre.skills@, id);
    assert forall|i: int|
        0 <= i < post.characters@.len() implies (#[trigger] post.characters@[i]).created_at
        <= post.characters@[i].updated_at by {
        assert(post.characters@.contains(post.characters@[i]));
        let j = choose|j: int|
            0 <= j < pre.characters@.len() && pre.characters@[j] == post.characters@[i];
        assert(pre.characters@[j].created_at <= pre.characters@[j].updated_at);
    }
    assert forall|i: int|
        0 <= i < post.skills@.len() implies (#[trigger] post.skills@[i]).created_at
        <= post.skills@[i].updated_at by {
        assert(post.skills@.contains(post.skills@[i]));
        let j = choose|j: int| 0 <= j < pre.skills@.len() && pre.skills@[j] == post.skills@[i];
        assert(pre.skills@[j].created_at <= pre.skills@[j].updated_at);
    }
    assert forall|i: int|
        0 <= i < post.tasks@.len() implies (#[trigger] post.tasks@[i]).created_at
        <= post.tasks@[i].updated_at by {
        assert(post.tasks@.contains(post.tasks@[i]));
        let j = choose|j: int| 0 <= j < pre.tasks@.len() && pre.tasks@[j] == post.tasks@[i];
        assert(pre.tasks@[j].created_at <= pre.tasks@[j].updated_at);
    }
}

/// Law: resetting the store twice in a row leaves, both times, the identical
/// empty-but-created state, and both calls report success.
pub proof fn lemma_reset_db_idempotent(
    db0: Db,
    db1: Db,
    db2: Db,
    t1: TimeType,
    t2: TimeType,
    r1: Result<QueryResult, AppError>,
    r2: Result<QueryResult, AppError>,
)
    requires
        execute_spec(db0, db1, Query::ResetDB, t1, r1),
        execute_spec(db1, db2, Query::ResetDB, t2, r2),
    ensures
        db1.characters@ == db2.characters@,
        db1.skills@ == db2.skills@,
        db1.tasks@ == db2.tasks@,
        same_counters(db1, db2),
        r1 == Ok::<QueryResult, AppError>(QueryResult::Success),
        r2 == Ok::<QueryResult, AppError>(QueryResult::Success),
{
    match r1 {
        Ok(QueryResult::Success) => {
        },
        _ => {
            assert(false);
        },
    }
    match r2 {
        Ok(QueryResult::Success) => {
        },
        _ => {
            assert(false);
        },
    }
}

} // verus!
