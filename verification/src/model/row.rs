//! The row mapper: a pure, stateless translation between a persisted row —
//! an ordered sequence of typed columns — and an entity record. A malformed
//! row (wrong column count, wrong column type, or an integer outside the
//! field's range) fails with a `MappingError`.

use vstd::prelude::*;

use crate::model::character::{Character, CharacterFields};
use crate::model::skill::{Skill, SkillFields};
use crate::model::task::{Task, TaskFields};

verus! {

/// One persisted column: the storage engine's integer or text affinity.
#[derive(Debug)]
pub enum ColumnValue {
    Integer(i64),
    Text(String),
}

/// Why a row could not be mapped to an entity record.
#[derive(Debug)]
pub enum MappingError {
    ColumnCount,
    ColumnType { index: usize },
}

/// An id or timestamp column: a non-negative integer.
pub open spec fn col_u64(c: ColumnValue) -> Option<u64> {
    match c {
        ColumnValue::Integer(v) => if v >= 0 {
            Some(v as u64)
        } else {
            None
        },
        _ => None,
    }
}

/// A small-range integer column (progress, level, completed).
pub open spec fn col_u8(c: ColumnValue) -> Option<u8> {
    match c {
        ColumnValue::Integer(v) => if 0 <= v <= 255 {
            Some(v as u8)
        } else {
            None
        },
        _ => None,
    }
}

/// A text column.
pub open spec fn col_text(c: ColumnValue) -> Option<String> {
    match c {
        ColumnValue::Text(s) => Some(s),
        _ => None,
    }
}

/// The character record a row denotes, if it is well-formed:
/// id, name, avatar, notes, quote, created_at, updated_at.
pub open spec fn character_from_row(row: Seq<ColumnValue>) -> Option<Character> {
    if row.len() != 7 {
        None
    } else {
        match (col_u64(row[0]), col_text(row[1]), col_text(row[2]), col_text(row[3]), col_text(
            row[4],
        ), col_u64(row[5]), col_u64(row[6])) {
            (
                Some(id),
                Some(name),
                Some(avatar),
                Some(notes),
                Some(quote),
                Some(created_at),
                Some(updated_at),
            ) => Some(
                Character {
                    id,
                    fields: CharacterFields { name, avatar, notes, quote },
                    created_at,
                    updated_at,
                },
            ),
            _ => None,
        }
    }
}

/// The skill record a row denotes, if it is well-formed:
/// id, name, progress, level, character_id, created_at, updated_at.
pub open spec fn skill_from_row(row: Seq<ColumnValue>) -> Option<Skill> {
    if row.len() != 7 {
        None
    } else {
        match (col_u64(row[0]), col_text(row[1]), col_u8(row[2]), col_u8(row[3]), col_u64(row[4]),
        col_u64(row[5]), col_u64(row[6])) {
            (
                Some(id),
                Some(name),
                Some(progress),
                Some(level),
                Some(character_id),
                Some(created_at),
                Some(updated_at),
            ) => Some(
                Skill {
                    id,
                    fields: SkillFields { name, progress, level },
                    character_id,
                    created_at,
                    updated_at,
                },
            ),
            _ => None,
        }
    }
}

/// The task record a row denotes, if it is well-formed:
/// id, name, description, completed, skill_id, created_at, updated_at.
pub open spec fn task_from_row(row: Seq<ColumnValue>) -> Option<Task> {
    if row.len() != 7 {
        None
    } else {
        match (col_u64(row[0]), col_text(row[1]), col_text(row[2]), col_u8(row[3]), col_u64(
            row[4],
        ), col_u64(row[5]), col_u64(row[6])) {
            (
                Some(id),
                Some(name),
                Some(description),
                Some(completed),
                Some(skill_id),
                Some(created_at),
                Some(updated_at),
            ) => Some(
                Task {
                    id,
                    fields: TaskFields { name, description, completed },
                    skill_id,
                    created_at,
                    updated_at,
                },
            ),
            _ => None,
        }
    }
}

/// Maps a persisted row to a character record; fails exactly on a malformed
/// row, with ColumnCount exactly when the column count is wrong.
pub fn to_character(row: &Vec<ColumnValue>) -> (r: Result<Character, MappingError>)
    ensures
        match r {
            Ok(c) => character_from_row(row@) == Some(c),
            Err(e) => character_from_row(row@) is None && ((e is ColumnCount) <==> row@.len()
                != 7),
        },
{
    if row.len() != 7 {
        return Err(MappingError::ColumnCount);
    }
    let id = match &row[0] {
        ColumnValue::Integer(v) => {
            if *v < 0 {
                return Err(MappingError::ColumnType { index: 0 });
            }
            *v as u64
        },
        _ => {
            return Err(MappingError::ColumnType { index: 0 });
        },
    };
    let name = match &row[1] {
        ColumnValue::Text(s) => s.clone(),
        _ => {
            return Err(MappingError::ColumnType { index: 1 });
        },
    };
    let avatar = match &row[2] {
        ColumnValue::Text(s) => s.clone(),
        _ => {
            return Err(MappingError::ColumnType { index: 2 });
        },
    };
    let notes = match &row[3] {
        ColumnValue::Text(s) => s.clone(),
        _ => {
            return Err(MappingError::ColumnType { index: 3 });
        },
    };
    let quote = match &row[4] {
        ColumnValue::Text(s) => s.clone(),
        _ => {
            return Err(MappingError::ColumnType { index: 4 });
        },
    };
    let created_at = match &row[5] {
        ColumnValue::Integer(v) => {
            if *v < 0 {
                return Err(MappingError::ColumnType { index: 5 });
            }
            *v as u64
        },
        _ => {
            return Err(MappingError::ColumnType { index: 5 });
        },
    };
    let updated_at = match &row[6] {
        ColumnValue::Integer(v) => {
            if *v < 0 {
                return Err(MappingError::ColumnType { index: 6 });
            }
            *v as u64
        },
        _ => {
            return Err(MappingError::ColumnType { index: 6 });
        },
    };
    Ok(Character { id, fields: CharacterFields { name, avatar, notes, quote }, created_at, updated_at })
}

/// Maps a persisted row to a skill record; fails exactly on a malformed row,
/// with ColumnCount exactly when the column count is wrong.
pub fn to_skill(row: &Vec<ColumnValue>) -> (r: Result<Skill, MappingError>)
    ensures
        match r {
            Ok(s) => skill_from_row(row@) == Some(s),
            Err(e) => skill_from_row(row@) is None && ((e is ColumnCount) <==> row@.len() != 7),
        },
{
    if row.len() != 7 {
        return Err(MappingError::ColumnCount);
    }
    let id = match &row[0] {
        ColumnValue::Integer(v) => {
            if *v < 0 {
                return Err(MappingError::ColumnType { index: 0 });
            }
            *v as u64
        },
        _ => {
            return Err(MappingError::ColumnType { index: 0 });
        },
    };
    let name = match &row[1] {
        ColumnValue::Text(s) => s.clone(),
        _ => {
            return Err(MappingError::ColumnType { index: 1 });
        },
    };
    let progress = match &row[2] {
        ColumnValue::Integer(v) => {
            if *v < 0 || *v > 255 {
                return Err(MappingError::ColumnType { index: 2 });
            }
            *v as u8
        },
        _ => {
            return Err(MappingError::ColumnType { index: 2 });
        },
    };
    let level = match &row[3] {
        ColumnValue::Integer(v) => {
            if *v < 0 || *v > 255 {
                return Err(MappingError::ColumnType { index: 3 });
            }
            *v as u8
        },
        _ => {
            return Err(MappingError::ColumnType { index: 3 });
        },
    };
    let character_id = match &row[4] {
        ColumnValue::Integer(v) => {
            if *v < 0 {
                return Err(MappingError::ColumnType { index: 4 });
            }
            *v as u64
        },
        _ => {
            return Err(MappingError::ColumnType { index: 4 });
        },
    };
    let created_at = match &row[5] {
        ColumnValue::Integer(v) => {
            if *v < 0 {
                return Err(MappingError::ColumnType { index: 5 });
            }
            *v as u64
        },
        _ => {
            return Err(MappingError::ColumnType { index: 5 });
        },
    };
    let updated_at = match &row[6] {
        ColumnValue::Integer(v) => {
            if *v < 0 {
                return Err(MappingError::ColumnType { index: 6 });
            }
            *v as u64
        },
        _ => {
            return Err(MappingError::ColumnType { index: 6 });
        },
    };
    Ok(Skill {
        id,
        fields: SkillFields { name, progress, level },
        character_id,
        created_at,
        updated_at,
    })
}

/// Maps a persisted row to a task record; fails exactly on a malformed row,
/// with ColumnCount exactly when the column count is wrong.
pub fn to_task(row: &Vec<ColumnValue>) -> (r: Result<Task, MappingError>)
    ensures
        match r {
            Ok(t) => task_from_row(row@) == Some(t),
            Err(e) => task_from_row(row@) is None && ((e is ColumnCount) <==> row@.len() != 7),
        },
{
    if row.len() != 7 {
        return Err(MappingError::ColumnCount);
    }
    let id = match &row[0] {
        ColumnValue::Integer(v) => {
            if *v < 0 {
                return Err(MappingError::ColumnType { index: 0 });
            }
            *v as u64
        },
        _ => {
            return Err(MappingError::ColumnType { index: 0 });
        },
    };
    let name = match &row[1] {
        ColumnValue::Text(s) => s.clone(),
        _ => {
            return Err(MappingError::ColumnType { index: 1 });
        },
    };
    let description = match &row[2] {
        ColumnValue::Text(s) => s.clone(),
        _ => {
            return Err(MappingError::ColumnType { index: 2 });
        },
    };
    let completed = match &row[3] {
        ColumnValue::Integer(v) => {
            if *v < 0 || *v > 255 {
                return Err(MappingError::ColumnType { index: 3 });
            }
            *v as u8
        },
        _ => {
            return Err(MappingError::ColumnType { index: 3 });
        },
    };
    let skill_id = match &row[4] {
        ColumnValue::Integer(v) => {
            if *v < 0 {
                return Err(MappingError::ColumnType { index: 4 });
            }
            *v as u64
        },
        _ => {
            return Err(MappingError::ColumnType { index: 4 });
        },
    };
    let created_at = match &row[5] {
        ColumnValue::Integer(v) => {
            if *v < 0 {
                return Err(MappingError::ColumnType { index: 5 });
            }
            *v as u64
        },
        _ => {
            return Err(MappingError::ColumnType { index: 5 });
        },
    };
    let updated_at = match &row[6] {
        ColumnValue::Integer(v) => {
            if *v < 0 {
                return Err(MappingError::ColumnType { index: 6 });
            }
            *v as u64
        },
        _ => {
            return Err(MappingError::ColumnType { index: 6 });
        },
    };
    Ok(Task {
        id,
        fields: TaskFields { name, description, completed },
        skill_id,
        created_at,
        updated_at,
    })
}

/// The persisted form of a character record, column order as the table
/// declares it.
pub open spec fn character_row_of(c: Character) -> Seq<ColumnValue> {
    seq![
        ColumnValue::Integer(c.id as i64),
        ColumnValue::Text(c.fields.name),
        ColumnValue::Text(c.fields.avatar),
        ColumnValue::Text(c.fields.notes),
        ColumnValue::Text(c.fields.quote),
        ColumnValue::Integer(c.created_at as i64),
        ColumnValue::Integer(c.updated_at as i64),
    ]
}

/// Law: mapping the persisted form of a character back yields the record
/// unchanged, for every record whose numeric fields fit a storage integer.
pub proof fn lemma_character_row_round_trip(c: Character)
    requires
        c.id <= i64::MAX as u64,
        c.created_at <= i64::MAX as u64,
        c.updated_at <= i64::MAX as u64,
    ensures
        character_from_row(character_row_of(c)) == Some(c),
{
    let row = character_row_of(c);
    assert(col_u64(row[0]) == Some(c.id));
    assert(col_u64(row[5]) == Some(c.created_at));
    assert(col_u64(row[6]) == Some(c.updated_at));
}

/// The persisted form of a skill record, column order as the table declares
/// it.
pub open spec fn skill_row_of(s: Skill) -> Seq<ColumnValue> {
    seq![
        ColumnValue::Integer(s.id as i64),
        ColumnValue::Text(s.fields.name),
        ColumnValue::Integer(s.fields.progress as i64),
        ColumnValue::Integer(s.fields.level as i64),
        ColumnValue::Integer(s.character_id as i64),
        ColumnValue::Integer(s.created_at as i64),
        ColumnValue::Integer(s.updated_at as i64),
    ]
}

/// Law: mapping the persisted form of a skill back yields the record
/// unchanged, for every record whose numeric fields fit a storage integer.
pub proof fn lemma_skill_row_round_trip(s: Skill)
    requires
        s.id <= i64::MAX as u64,
        s.character_id <= i64::MAX as u64,
        s.created_at <= i64::MAX as u64,
        s.updated_at <= i64::MAX as u64,
    ensures
        skill_from_row(skill_row_of(s)) == Some(s),
{
    let row = skill_row_of(s);
    assert(col_u64(row[0]) == Some(s.id));
    assert(col_u8(row[2]) == Some(s.fields.progress));
    assert(col_u8(row[3]) == Some(s.fields.level));
    assert(col_u64(row[4]) == Some(s.character_id));
    assert(col_u64(row[5]) == Some(s.created_at));
    assert(col_u64(row[6]) == Some(s.updated_at));
}

/// The persisted form of a task record, column order as the table declares
/// it.
pub open spec fn task_row_of(t: Task) -> Seq<ColumnValue> {
    seq![
        ColumnValue::Integer(t.id as i64),
        ColumnValue::Text(t.fields.name),
        ColumnValue::Text(t.fields.description),
        ColumnValue::Integer(t.fields.completed as i64),
        ColumnValue::Integer(t.skill_id as i64),
        ColumnValue::Integer(t.created_at as i64),
        ColumnValue::Integer(t.updated_at as i64),
    ]
}

/// Law: mapping the persisted form of a task back yields the record
/// unchanged, for every record whose numeric fields fit a storage integer.
pub proof fn lemma_task_row_round_trip(t: Task)
    requires
        t.id <= i64::MAX as u64,
        t.skill_id <= i64::MAX as u64,
        t.created_at <= i64::MAX as u64,
        t.updated_at <= i64::MAX as u64,
    ensures
        task_from_row(task_row_of(t)) == Some(t),
{
    let row = task_row_of(t);
    assert(col_u64(row[0]) == Some(t.id));
    assert(col_u8(row[3]) == Some(t.fields.completed));
    assert(col_u64(row[4]) == Some(t.skill_id));
    assert(col_u64(row[5]) == Some(t.created_at));
    assert(col_u64(row[6]) == Some(t.updated_at));
}

} // verus!
