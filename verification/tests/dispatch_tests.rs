use game_of_life_api::db::{create_db, execute, Query, QueryResult};
use game_of_life_api::model::character::CharacterFields;
use game_of_life_api::model::skill::SkillFields;
use game_of_life_api::model::task::TaskFields;
use game_of_life_api::AppError;

fn character_fields(name: &str) -> CharacterFields {
    CharacterFields {
        name: name.to_string(),
        avatar: "a".to_string(),
        notes: "n".to_string(),
        quote: "q".to_string(),
    }
}

fn skill_fields(name: &str) -> SkillFields {
    SkillFields { name: name.to_string(), progress: 0, level: 1 }
}

fn task_fields(name: &str) -> TaskFields {
    TaskFields { name: name.to_string(), description: "d".to_string(), completed: 0 }
}

#[test]
fn character_tasks_on_empty_db_is_not_found_not_empty_list() {
    let mut db = create_db();
    let r = execute(&mut db, Query::GetCharacterTaskList(999));
    assert!(matches!(r, Err(AppError::NotFound)));
}

#[test]
fn character_skills_on_absent_character_is_not_found() {
    let mut db = create_db();
    let r = execute(&mut db, Query::GetCharacterSkillList(999));
    assert!(matches!(r, Err(AppError::NotFound)));
}

#[test]
fn dispatch_create_returns_created_entity() {
    let mut db = create_db();
    let r = execute(&mut db, Query::CreateCharacter(character_fields("Ada"))).unwrap();
    let c = match r {
        QueryResult::Character(c) => c,
        _ => panic!("expected a character"),
    };
    assert_eq!(c.id, 1);
    assert_eq!(c.fields.name, "Ada");
    assert_eq!(c.created_at, c.updated_at);
}

#[test]
fn dispatch_cascade_uses_one_timestamp_per_operation() {
    let mut db = create_db();
    execute(&mut db, Query::CreateCharacter(character_fields("Ada"))).unwrap();
    execute(&mut db, Query::CreateCharacterSkill(1, skill_fields("Logic"))).unwrap();
    let task = match execute(&mut db, Query::CreateSkillTask(1, task_fields("Prove"))).unwrap() {
        QueryResult::Task(t) => t,
        _ => panic!("expected a task"),
    };
    assert_eq!(task.created_at, task.updated_at);
    let skill = match execute(&mut db, Query::GetSkill(1)).unwrap() {
        QueryResult::Skill(s) => s,
        _ => panic!("expected a skill"),
    };
    let character = match execute(&mut db, Query::GetCharacter(1)).unwrap() {
        QueryResult::Character(c) => c,
        _ => panic!("expected a character"),
    };
    // the one timestamp of the task creation is on the task, its skill, and
    // the root character
    assert_eq!(skill.updated_at, task.created_at);
    assert_eq!(character.updated_at, task.created_at);
}

#[test]
fn dispatch_task_union_keeps_skill_then_task_order() {
    let mut db = create_db();
    execute(&mut db, Query::CreateCharacter(character_fields("Ada"))).unwrap();
    execute(&mut db, Query::CreateCharacterSkill(1, skill_fields("S1"))).unwrap();
    execute(&mut db, Query::CreateCharacterSkill(1, skill_fields("S2"))).unwrap();
    // tasks created interleaved across the two skills
    execute(&mut db, Query::CreateSkillTask(2, task_fields("T1"))).unwrap();
    execute(&mut db, Query::CreateSkillTask(1, task_fields("T2"))).unwrap();
    execute(&mut db, Query::CreateSkillTask(2, task_fields("T3"))).unwrap();

    let tasks = match execute(&mut db, Query::GetCharacterTaskList(1)).unwrap() {
        QueryResult::TaskList(v) => v,
        _ => panic!("expected a task list"),
    };
    // skill iteration order first (S1 before S2), task order within each
    let names: Vec<&str> = tasks.iter().map(|t| t.fields.name.as_str()).collect();
    assert_eq!(names, vec!["T2", "T1", "T3"]);
}

#[test]
fn dispatch_get_skill_and_task_not_found() {
    let mut db = create_db();
    assert!(matches!(execute(&mut db, Query::GetSkill(5)), Err(AppError::NotFound)));
    assert!(matches!(execute(&mut db, Query::GetTask(5)), Err(AppError::NotFound)));
    assert!(matches!(execute(&mut db, Query::GetSkillTaskList(5)), Err(AppError::NotFound)));
    assert!(matches!(execute(&mut db, Query::GetCharacter(5)), Err(AppError::NotFound)));
}

#[test]
fn dispatch_update_and_delete() {
    let mut db = create_db();
    execute(&mut db, Query::CreateCharacter(character_fields("Ada"))).unwrap();
    let updated = match execute(
        &mut db,
        Query::UpdateCharacter(1, character_fields("Lovelace")),
    )
    .unwrap()
    {
        QueryResult::Character(c) => c,
        _ => panic!("expected a character"),
    };
    assert_eq!(updated.fields.name, "Lovelace");
    assert!(matches!(
        execute(&mut db, Query::DeleteCharacter(1)),
        Ok(QueryResult::Success)
    ));
    assert!(matches!(execute(&mut db, Query::GetCharacter(1)), Err(AppError::NotFound)));
    assert!(matches!(execute(&mut db, Query::DeleteCharacter(1)), Err(AppError::NotFound)));
}

#[test]
fn dispatch_lists_empty_database() {
    let mut db = create_db();
    match execute(&mut db, Query::GetCharacterList).unwrap() {
        QueryResult::CharacterList(v) => assert!(v.is_empty()),
        _ => panic!("expected a character list"),
    }
    match execute(&mut db, Query::GetSkillList).unwrap() {
        QueryResult::SkillList(v) => assert!(v.is_empty()),
        _ => panic!("expected a skill list"),
    }
    match execute(&mut db, Query::GetTaskList).unwrap() {
        QueryResult::TaskList(v) => assert!(v.is_empty()),
        _ => panic!("expected a task list"),
    }
}

#[test]
fn dispatch_create_skill_under_missing_character_is_db_error() {
    let mut db = create_db();
    let r = execute(&mut db, Query::CreateCharacterSkill(7, skill_fields("S")));
    assert!(matches!(r, Err(AppError::DBError { .. })));
}
