//! The relational state behind the service and the query dispatcher.
//!
//! `Db` models the three tables of the store together with the id counters
//! the storage engine assigns from. `wf` is the referential-integrity
//! invariant every operation preserves: ids are unique per table, every
//! skill references a live character, every task references a live skill,
//! and `completed` is a 0/1 encoding of a boolean.

use vstd::prelude::*;

pub mod character;
pub mod skill;
pub mod task;

use crate::model::character::{
    char_index, character_of, has_character, unique_character_ids, Character, CharacterFields,
};
use crate::model::skill::{
    has_skill, lemma_skill_of, skill_index, skill_of, unique_skill_ids, Skill, SkillFields,
};
use crate::model::task::{has_task, task_index, task_of, unique_task_ids, Task, TaskFields};
use crate::model::task::TaskList;
use crate::util::{now, IdType, TimeType};
use crate::AppError;

use character::{
    chars_touched, chars_without, create_character, delete_character, get_character,
    get_character_list, skills_without_character, tasks_without_character, update_character,
};
use skill::{
    create_skill, delete_skill, get_skill, get_skill_list, skills_of_character, skills_touched,
    skills_without, update_skill,
};
use task::{
    create_task, delete_task, get_task, get_task_list, tasks_of_skill, tasks_without,
    tasks_without_skill, update_task,
};

verus! {

/// A well-formedness bound on one character row: its id was assigned from
/// the counter.
pub open spec fn character_row_wf(c: Character, next_id: u64) -> bool {
    1 <= c.id < next_id
}

/// A well-formedness bound on one skill row: id from the counter, and a live
/// owning character.
pub open spec fn skill_row_wf(s: Skill, next_id: u64, characters: Seq<Character>) -> bool {
    &&& 1 <= s.id < next_id
    &&& has_character(characters, s.character_id)
}

/// A well-formedness bound on one task row: id from the counter, a live
/// owning skill, and a 0/1 `completed` flag.
pub open spec fn task_row_wf(t: Task, next_id: u64, skills: Seq<Skill>) -> bool {
    &&& 1 <= t.id < next_id
    &&& has_skill(skills, t.skill_id)
    &&& t.fields.completed <= 1
}

/// The id counters are unchanged between two states.
pub open spec fn same_counters(pre: Db, post: Db) -> bool {
    &&& post.next_character_id == pre.next_character_id
    &&& post.next_skill_id == pre.next_skill_id
    &&& post.next_task_id == pre.next_task_id
}

/// The whole store: three tables and the id counter of each.
pub struct Db {
    pub characters: Vec<Character>,
    pub skills: Vec<Skill>,
    pub tasks: Vec<Task>,
    pub next_character_id: u64,
    pub next_skill_id: u64,
    pub next_task_id: u64,
}

impl Db {
    /// Referential integrity of the store; established by `create_db` and
    /// preserved by every operation of the library.
    pub open spec fn wf(self) -> bool {
        &&& unique_character_ids(self.characters@)
        &&& unique_skill_ids(self.skills@)
        &&& unique_task_ids(self.tasks@)
        &&& 1 <= self.next_character_id
        &&& 1 <= self.next_skill_id
        &&& 1 <= self.next_task_id
        &&& forall|i: int|
            0 <= i < self.characters@.len() ==> character_row_wf(
                #[trigger] self.characters@[i],
                self.next_character_id,
            )
        &&& forall|i: int|
            0 <= i < self.skills@.len() ==> skill_row_wf(
                #[trigger] self.skills@[i],
                self.next_skill_id,
                self.characters@,
            )
        &&& forall|i: int|
            0 <= i < self.tasks@.len() ==> task_row_wf(
                #[trigger] self.tasks@[i],
                self.next_task_id,
                self.skills@,
            )
    }

    /// The state of a store whose tables exist and are empty, with id
    /// assignment starting over from 1.
    pub open spec fn is_reset(self) -> bool {
        &&& self.characters@ == Seq::<Character>::empty()
        &&& self.skills@ == Seq::<Skill>::empty()
        &&& self.tasks@ == Seq::<Task>::empty()
        &&& self.next_character_id == 1
        &&& self.next_skill_id == 1
        &&& self.next_task_id == 1
    }
}

/// Creates the store with its three empty tables.
pub fn create_db() -> (db: Db)
    ensures
        db.wf(),
        db.is_reset(),
{
    Db {
        characters: Vec::new(),
        skills: Vec::new(),
        tasks: Vec::new(),
        next_character_id: 1,
        next_skill_id: 1,
        next_task_id: 1,
    }
}

/// Deletes every row, children before parents, and starts id assignment
/// over; together with the (idempotent) table creation this is the reset
/// operation.
pub fn clear_db(db: &mut Db)
    ensures
        final(db).wf(),
        final(db).is_reset(),
{
    db.tasks.clear();
    db.skills.clear();
    db.characters.clear();
    db.next_task_id = 1;
    db.next_skill_id = 1;
    db.next_character_id = 1;
}

/// The closed set of operations the service dispatches.
#[derive(Debug)]
pub enum Query {
    GetCharacterList,
    GetCharacter(IdType),
    GetCharacterSkillList(IdType),
    CreateCharacterSkill(IdType, SkillFields),  // IdType: character_id
    GetCharacterTaskList(IdType),
    CreateCharacter(CharacterFields),
    UpdateCharacter(IdType, CharacterFields),
    DeleteCharacter(IdType),
    GetSkillList,
    GetSkill(IdType),
    GetSkillTaskList(IdType),
    CreateSkillTask(IdType, TaskFields),  // IdType: skill_id
    UpdateSkill(IdType, SkillFields),
    DeleteSkill(IdType),
    GetTaskList,
    GetTask(IdType),
    UpdateTask(IdType, TaskFields),
    DeleteTask(IdType),
    ResetDB,
}

/// The typed result of one dispatched operation.
#[derive(Debug)]
pub enum QueryResult {
    CharacterList(Vec<Character>),
    Character(Character),
    SkillList(Vec<Skill>),
    Skill(Skill),
    TaskList(Vec<Task>),
    Task(Task),
    Success,
}

/// The union, for one character, of the tasks of each of its skills: skill
/// iteration order first, task iteration order within each skill.
pub open spec fn tasks_by_skills(skill_rows: Seq<Skill>, tasks: Seq<Task>) -> Seq<Task>
    decreases skill_rows.len(),
{
    if skill_rows.len() == 0 {
        Seq::empty()
    } else {
        tasks_by_skills(skill_rows.drop_last(), tasks) + tasks_of_skill(
            tasks,
            skill_rows.last().id,
        )
    }
}

/// What one dispatched operation does to the store and returns, given the
/// timestamp the dispatcher observed for it. This is the contract of
/// `execute_at`, one clause per operation kind.
pub open spec fn execute_spec(
    pre: Db,
    post: Db,
    query: Query,
    t: TimeType,
    r: Result<QueryResult, AppError>,
) -> bool {
    match query {
        Query::GetCharacterList => post == pre && (match r {
            Ok(QueryResult::CharacterList(v)) => v@ == pre.characters@,
            _ => false,
        }),
        Query::GetCharacter(id) => post == pre && (match r {
            Ok(QueryResult::Character(c)) => has_character(pre.characters@, id) && c
                == character_of(pre.characters@, id),
            Err(e) => e == AppError::NotFound && !has_character(pre.characters@, id),
            _ => false,
        }),
        Query::GetCharacterSkillList(id) => post == pre && (match r {
            Ok(QueryResult::SkillList(v)) => has_character(pre.characters@, id) && v@
                == skills_of_character(pre.skills@, id),
            Err(e) => e == AppError::NotFound && !has_character(pre.characters@, id),
            _ => false,
        }),
        Query::GetCharacterTaskList(id) => post == pre && (match r {
            Ok(QueryResult::TaskList(v)) => has_character(pre.characters@, id) && v@
                == tasks_by_skills(skills_of_character(pre.skills@, id), pre.tasks@),
            Err(e) => e == AppError::NotFound && !has_character(pre.characters@, id),
            _ => false,
        }),
        Query::CreateCharacter(fields) => match r {
            Ok(QueryResult::Character(c)) => {
                &&& pre.next_character_id < u64::MAX
                &&& c == (Character {
                    id: pre.next_character_id,
                    fields,
                    created_at: t,
                    updated_at: t,
                })
                &&& post.characters@ == pre.characters@.push(c)
                &&& post.skills@ == pre.skills@
                &&& post.tasks@ == pre.tasks@
                &&& post.next_character_id == pre.next_character_id + 1
                &&& post.next_skill_id == pre.next_skill_id
                &&& post.next_task_id == pre.next_task_id
            },
            Err(e) => e is DBError && pre.next_character_id == u64::MAX && post == pre,
            _ => false,
        },
        Query::UpdateCharacter(id, fields) => match r {
            Ok(QueryResult::Character(c)) => {
                &&& has_character(pre.characters@, id)
                &&& c == (Character {
                    id,
                    fields,
                    created_at: character_of(pre.characters@, id).created_at,
                    updated_at: t,
                })
                &&& post.characters@ == pre.characters@.update(char_index(pre.characters@, id), c)
                &&& post.skills@ == pre.skills@
                &&& post.tasks@ == pre.tasks@
                &&& same_counters(pre, post)
            },
            Err(e) => e == AppError::NotFound && !has_character(pre.characters@, id) && post
                == pre,
            _ => false,
        },
        Query::DeleteCharacter(id) => match r {
            Ok(QueryResult::Success) => {
                &&& has_character(pre.characters@, id)
                &&& post.characters@ == chars_without(pre.characters@, id)
                &&& post.skills@ == skills_without_character(pre.skills@, id)
                &&& post.tasks@ == tasks_without_character(pre.tasks@, pre.skills@, id)
                &&& same_counters(pre, post)
            },
            Err(e) => e == AppError::NotFound && !has_character(pre.characters@, id) && post
                == pre,
            _ => false,
        },
        Query::GetSkillList => post == pre && (match r {
            Ok(QueryResult::SkillList(v)) => v@ == pre.skills@,
            _ => false,
        }),
        Query::GetSkill(id) => post == pre && (match r {
            Ok(QueryResult::Skill(s)) => has_skill(pre.skills@, id) && s == skill_of(
                pre.skills@,
                id,
            ),
            Err(e) => e == AppError::NotFound && !has_skill(pre.skills@, id),
            _ => false,
        }),
        Query::GetSkillTaskList(id) => post == pre && (match r {
            Ok(QueryResult::TaskList(v)) => has_skill(pre.skills@, id) && v@ == tasks_of_skill(
                pre.tasks@,
                id,
            ),
            Err(e) => e == AppError::NotFound && !has_skill(pre.skills@, id),
            _ => false,
        }),
        Query::CreateCharacterSkill(character_id, fields) => match r {
            Ok(QueryResult::Skill(s)) => {
                &&& has_character(pre.characters@, character_id)
                &&& pre.next_skill_id < u64::MAX
                &&& s == (Skill {
                    id: pre.next_skill_id,
                    fields,
                    character_id,
                    created_at: t,
                    updated_at: t,
                })
                &&& post.skills@ == pre.skills@.push(s)
                &&& chars_touched(pre.characters@, post.characters@, character_id, t)
                &&& post.tasks@ == pre.tasks@
                &&& post.next_skill_id == pre.next_skill_id + 1
                &&& post.next_character_id == pre.next_character_id
                &&& post.next_task_id == pre.next_task_id
            },
            Err(e) => e is DBError && !(has_character(pre.characters@, character_id)
                && pre.next_skill_id < u64::MAX) && post == pre,
            _ => false,
        },
        Query::UpdateSkill(id, fields) => match r {
            Ok(QueryResult::Skill(s)) => {
                &&& has_skill(pre.skills@, id)
                &&& s == (Skill {
                    id,
                    fields,
                    character_id: skill_of(pre.skills@, id).character_id,
                    created_at: skill_of(pre.skills@, id).created_at,
                    updated_at: t,
                })
                &&& post.skills@ == pre.skills@.update(skill_index(pre.skills@, id), s)
                &&& chars_touched(
                    pre.characters@,
                    post.characters@,
                    skill_of(pre.skills@, id).character_id,
                    t,
                )
                &&& post.tasks@ == pre.tasks@
                &&& same_counters(pre, post)
            },
            Err(e) => e == AppError::NotFound && !has_skill(pre.skills@, id) && post == pre,
            _ => false,
        },
        Query::DeleteSkill(id) => match r {
            Ok(QueryResult::Success) => {
                &&& has_skill(pre.skills@, id)
                &&& post.skills@ == skills_without(pre.skills@, id)
                &&& post.tasks@ == tasks_without_skill(pre.tasks@, id)
                &&& chars_touched(
                    pre.characters@,
                    post.characters@,
                    skill_of(pre.skills@, id).character_id,
                    t,
                )
                &&& same_counters(pre, post)
            },
            Err(e) => e == AppError::NotFound && !has_skill(pre.skills@, id) && post == pre,
            _ => false,
        },
        Query::GetTaskList => post == pre && (match r {
            Ok(QueryResult::TaskList(v)) => v@ == pre.tasks@,
            _ => false,
        }),
        Query::GetTask(id) => post == pre && (match r {
            Ok(QueryResult::Task(x)) => has_task(pre.tasks@, id) && x == task_of(pre.tasks@, id),
            Err(e) => e == AppError::NotFound && !has_task(pre.tasks@, id),
            _ => false,
        }),
        Query::CreateSkillTask(skill_id, fields) => match r {
            Ok(QueryResult::Task(x)) => {
                &&& has_skill(pre.skills@, skill_id)
                &&& fields.completed <= 1
                &&& pre.next_task_id < u64::MAX
                &&& x == (Task { id: pre.next_task_id, fields, skill_id, created_at: t, updated_at: t })
                &&& post.tasks@ == pre.tasks@.push(x)
                &&& skills_touched(pre.skills@, post.skills@, skill_id, t)
                &&& chars_touched(
                    pre.characters@,
                    post.characters@,
                    skill_of(pre.skills@, skill_id).character_id,
                    t,
                )
                &&& post.next_task_id == pre.next_task_id + 1
                &&& post.next_character_id == pre.next_character_id
                &&& post.next_skill_id == pre.next_skill_id
            },
            Err(e) => e is DBError && !(has_skill(pre.skills@, skill_id) && fields.completed <= 1
                && pre.next_task_id < u64::MAX) && post == pre,
            _ => false,
        },
        Query::UpdateTask(id, fields) => match r {
            Ok(QueryResult::Task(x)) => {
                &&& has_task(pre.tasks@, id)
                &&& fields.completed <= 1
                &&& x == (Task {
                    id,
                    fields,
                    skill_id: task_of(pre.tasks@, id).skill_id,
                    created_at: task_of(pre.tasks@, id).created_at,
                    updated_at: t,
                })
                &&& post.tasks@ == pre.tasks@.update(task_index(pre.tasks@, id), x)
                &&& skills_touched(pre.skills@, post.skills@, task_of(pre.tasks@, id).skill_id, t)
                &&& chars_touched(
                    pre.characters@,
                    post.characters@,
                    skill_of(pre.skills@, task_of(pre.tasks@, id).skill_id).character_id,
                    t,
                )
                &&& same_counters(pre, post)
            },
            Err(e) => post == pre && (if has_task(pre.tasks@, id) {
                e is DBError && fields.completed > 1
            } else {
                e == AppError::NotFound
            }),
            _ => false,
        },
        Query::DeleteTask(id) => match r {
            Ok(QueryResult::Success) => {
                &&& has_task(pre.tasks@, id)
                &&& post.tasks@ == tasks_without(pre.tasks@, id)
                &&& skills_touched(pre.skills@, post.skills@, task_of(pre.tasks@, id).skill_id, t)
                &&& chars_touched(
                    pre.characters@,
                    post.characters@,
                    skill_of(pre.skills@, task_of(pre.tasks@, id).skill_id).character_id,
                    t,
                )
                &&& same_counters(pre, post)
            },
            Err(e) => e == AppError::NotFound && !has_task(pre.tasks@, id) && post == pre,
            _ => false,
        },
        Query::ResetDB => match r {
            Ok(QueryResult::Success) => post.is_reset(),
            _ => false,
        },
    }
}

/// The union read behind `GetCharacterTaskList`: checks the character, then
/// walks its skills in order and concatenates each skill's tasks in order.
fn character_task_list(db: &Db, id: IdType) -> (r: Result<TaskList, AppError>)
    requires
        db.wf(),
    ensures
        match r {
            Ok(list) => has_character(db.characters@, id) && list.0@ == tasks_by_skills(
                skills_of_character(db.skills@, id),
                db.tasks@,
            ),
            Err(e) => e == AppError::NotFound && !has_character(db.characters@, id),
        },
{
    let character = match get_character(db, id) {
        Ok(c) => c,
        Err(e) => {
            return Err(e);
        },
    };
    proof {
        assert(character.id == id);
    }
    let skill_rows = get_skill_list(db, Some(character.id)).0;
    let ghost all = skills_of_character(db.skills@, id);
    let mut tasks: Vec<Task> = Vec::new();
    let mut i: usize = 0;
    while i < skill_rows.len()
        invariant
            db.wf(),
            i <= skill_rows@.len(),
            skill_rows@ == all,
            tasks@ == tasks_by_skills(skill_rows@.subrange(0, i as int), db.tasks@),
        decreases skill_rows@.len() - i,
    {
        let ghost prefix = skill_rows@.subrange(0, i as int);
        let mut skill_task_list = get_task_list(db, Some(skill_rows[i].id)).0;
        tasks.append(&mut skill_task_list);
        proof {
            assert(skill_rows@.subrange(0, i as int + 1) =~= prefix.push(
                skill_rows@[i as int],
            ));
            assert(skill_rows@.subrange(0, i as int + 1).drop_last() =~= prefix);
        }
        i += 1;
    }
    proof {
        assert(skill_rows@.subrange(0, skill_rows@.len() as int) =~= skill_rows@);
    }
    Ok(TaskList(tasks))
}

/// Dispatches one operation against the store at an observed timestamp. One
/// logical operation, cascade touches included, uses this single timestamp.
pub fn execute_at(db: &mut Db, query: Query, timestamp: TimeType) -> (r: Result<
    QueryResult,
    AppError,
>)
    requires
        old(db).wf(),
    ensures
        final(db).wf(),
        execute_spec(*old(db), *final(db), query, timestamp, r),
{
    match query {
        Query::GetCharacterList => {
            let character_list = get_character_list(db);
            Ok(QueryResult::CharacterList(character_list.0))
        },
        Query::GetCharacter(id) => {
            let character = get_character(db, id)?;
            Ok(QueryResult::Character(character))
        },
        Query::GetCharacterSkillList(id) => {
            let character = get_character(db, id)?;
            proof {
                assert(character.id == id);
            }
            let skill_list = get_skill_list(db, Some(character.id));
            Ok(QueryResult::SkillList(skill_list.0))
        },
        Query::GetCharacterTaskList(id) => {
            let task_list = character_task_list(db, id)?;
            Ok(QueryResult::TaskList(task_list.0))
        },
        Query::CreateCharacter(fields) => {
            let id = create_character(db, fields, timestamp)?;
            match get_character(db, id) {
                Ok(created_character) => {
                    proof {
                        let post = db.characters@;
                        crate::model::character::lemma_character_of(post, post.len() - 1);
                    }
                    Ok(QueryResult::Character(created_character))
                },
                Err(_) => {
                    // unreachable: the row was just inserted
                    proof {
                        let post = db.characters@;
                        assert(post[post.len() - 1].id == id);
                        assert(false);
                    }
                    Err(AppError::InternalError)
                },
            }
        },
        Query::UpdateCharacter(id, fields) => {
            update_character(db, id, fields, timestamp)?;
            proof {
                assert(has_character(old(db).characters@, id));
                let idx = char_index(old(db).characters@, id);
                assert(0 <= idx < old(db).characters@.len() && old(db).characters@[idx].id == id);
                assert(db.characters@[idx].id == id);
                crate::model::character::lemma_character_of(db.characters@, idx);
            }
            match get_character(db, id) {
                Ok(updated_character) => Ok(QueryResult::Character(updated_character)),
                Err(_) => {
                    // unreachable: the row was just updated in place
                    proof {
                        assert(false);
                    }
                    Err(AppError::InternalError)
                },
            }
        },
        Query::DeleteCharacter(id) => {
            delete_character(db, id)?;
            Ok(QueryResult::Success)
        },
        Query::GetSkillList => {
            let skill_list = get_skill_list(db, None);
            Ok(QueryResult::SkillList(skill_list.0))
        },
        Query::GetSkill(id) => {
            let skill = get_skill(db, id)?;
            Ok(QueryResult::Skill(skill))
        },
        Query::GetSkillTaskList(id) => {
            let skill = get_skill(db, id)?;
            proof {
                assert(skill.id == id);
            }
            let task_list = get_task_list(db, Some(skill.id));
            Ok(QueryResult::TaskList(task_list.0))
        },
        Query::CreateCharacterSkill(character_id, fields) => {
            let id = create_skill(db, character_id, fields, timestamp)?;
            match get_skill(db, id) {
                Ok(created_skill) => {
                    proof {
                        let post = db.skills@;
                        lemma_skill_of(post, post.len() - 1);
                    }
                    Ok(QueryResult::Skill(created_skill))
                },
                Err(_) => {
                    // unreachable: the row was just inserted
                    proof {
                        let post = db.skills@;
                        assert(post[post.len() - 1].id == id);
                        assert(false);
                    }
                    Err(AppError::InternalError)
                },
            }
        },
        Query::UpdateSkill(id, fields) => {
            update_skill(db, id, fields, timestamp)?;
            proof {
                assert(has_skill(old(db).skills@, id));
                let idx = skill_index(old(db).skills@, id);
                assert(0 <= idx < old(db).skills@.len() && old(db).skills@[idx].id == id);
                assert(db.skills@[idx].id == id);
                lemma_skill_of(db.skills@, idx);
            }
            match get_skill(db, id) {
                Ok(updated_skill) => Ok(QueryResult::Skill(updated_skill)),
                Err(_) => {
                    // unreachable: the row was just updated in place
                    proof {
                        assert(false);
                    }
                    Err(AppError::InternalError)
                },
            }
        },
        Query::DeleteSkill(id) => {
            delete_skill(db, id, timestamp)?;
            Ok(QueryResult::Success)
        },
        Query::GetTaskList => {
            let task_list = get_task_list(db, None);
            Ok(QueryResult::TaskList(task_list.0))
        },
        Query::GetTask(id) => {
            let task = get_task(db, id)?;
            Ok(QueryResult::Task(task))
        },
        Query::CreateSkillTask(skill_id, fields) => {
            let id = create_task(db, skill_id, fields, timestamp)?;
            match get_task(db, id) {
                Ok(created_task) => {
                    proof {
                        let post = db.tasks@;
                        crate::model::task::lemma_task_of(post, post.len() - 1);
                    }
                    Ok(QueryResult::Task(created_task))
                },
                Err(_) => {
                    // unreachable: the row was just inserted
                    proof {
                        let post = db.tasks@;
                        assert(post[post.len() - 1].id == id);
                        assert(false);
                    }
                    Err(AppError::InternalError)
                },
            }
        },
        Query::UpdateTask(id, fields) => {
            update_task(db, id, fields, timestamp)?;
            proof {
                assert(has_task(old(db).tasks@, id));
                let idx = task_index(old(db).tasks@, id);
                assert(0 <= idx < old(db).tasks@.len() && old(db).tasks@[idx].id == id);
                assert(db.tasks@[idx].id == id);
                crate::model::task::lemma_task_of(db.tasks@, idx);
            }
            match get_task(db, id) {
                Ok(updated_task) => Ok(QueryResult::Task(updated_task)),
                Err(_) => {
                    // unreachable: the row was just updated in place
                    proof {
                        assert(false);
                    }
                    Err(AppError::InternalError)
                },
            }
        },
        Query::DeleteTask(id) => {
            delete_task(db, id, timestamp)?;
            Ok(QueryResult::Success)
        },
        Query::ResetDB => {
            clear_db(db);
            Ok(QueryResult::Success)
        },
    }
}

/// Dispatches one operation at the timestamp the dispatcher observes now.
/// The clock is outside the model, so the contract promises the effect for
/// some timestamp, the one observed.
pub fn execute(db: &mut Db, query: Query) -> (r: Result<QueryResult, AppError>)
    requires
        old(db).wf(),
    ensures
        final(db).wf(),
        exists|t: TimeType| execute_spec(*old(db), *final(db), query, t, r),
{
    let timestamp = now();
    let ghost q = query;
    let r = execute_at(db, query, timestamp);
    proof {
        assert(execute_spec(*old(db), *db, q, timestamp, r));
    }
    r
}

} // verus!
