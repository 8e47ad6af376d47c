use vstd::prelude::*;

use crate::util::{IdType, TimeType};

verus! {

/// The mutable field group of a Task. `completed` is a boolean encoded as
/// 0 or 1, as the task table stores it.
#[derive(Debug)]
pub struct TaskFields {
    pub name: String,
    pub description: String,
    pub completed: u8,
}

impl Clone for TaskFields {
    fn clone(&self) -> (res: Self)
        ensures
            res == *self,
    {
        TaskFields {
            name: self.name.clone(),
            description: self.description.clone(),
            completed: self.completed,
        }
    }
}

/// A row of the task table; owned by exactly one Skill.
#[derive(Debug)]
pub struct Task {
    pub id: IdType,
    pub fields: TaskFields,
    pub skill_id: IdType,
    pub created_at: TimeType,
    pub updated_at: TimeType,
}

impl Clone for Task {
    fn clone(&self) -> (res: Self)
        ensures
            res == *self,
    {
        Task {
            id: self.id,
            fields: self.fields.clone(),
            skill_id: self.skill_id,
            created_at: self.created_at,
            updated_at: self.updated_at,
        }
    }
}

/// The response shape of a task listing.
#[derive(Debug)]
pub struct TaskList(pub Vec<Task>);

/// Whether some row of the table carries the given id.
pub open spec fn has_task(s: Seq<Task>, id: IdType) -> bool {
    exists|i: int| 0 <= i < s.len() && s[i].id == id
}

/// The index of the row carrying the given id; meaningful only under
/// `has_task` and unique ids.
pub open spec fn task_index(s: Seq<Task>, id: IdType) -> int {
    choose|i: int| 0 <= i < s.len() && s[i].id == id
}

/// The row carrying the given id; meaningful only under `has_task` and
/// unique ids.
pub open spec fn task_of(s: Seq<Task>, id: IdType) -> Task {
    s[task_index(s, id)]
}

/// No two rows of the table share an id.
pub open spec fn unique_task_ids(s: Seq<Task>) -> bool {
    forall|i: int, j: int|
        0 <= i < s.len() && 0 <= j < s.len() && i != j ==> s[i].id != s[j].id
}

/// Under unique ids, the row found at any index is the row `task_of` denotes
/// for that id.
pub proof fn lemma_task_of(s: Seq<Task>, i: int)
    requires
        unique_task_ids(s),
        0 <= i < s.len(),
    ensures
        has_task(s, s[i].id),
        task_index(s, s[i].id) == i,
        task_of(s, s[i].id) == s[i],
{
    assert(has_task(s, s[i].id));
    let k = choose|k: int| 0 <= k < s.len() && s[k].id == s[i].id;
    assert(k == i);
}

} // verus!
