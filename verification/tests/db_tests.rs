use game_of_life_api::db::character::{
    create_character, delete_character, get_character, get_character_list, touch as touch_character,
    update_character,
};
use game_of_life_api::db::skill::{
    create_skill, delete_skill, get_skill, get_skill_list, touch as touch_skill, update_skill,
};
use game_of_life_api::db::task::{create_task, delete_task, get_task, get_task_list, update_task};
use game_of_life_api::db::{clear_db, create_db, execute, Query, QueryResult};
use game_of_life_api::model::character::CharacterFields;
use game_of_life_api::model::skill::SkillFields;
use game_of_life_api::model::task::TaskFields;
use game_of_life_api::AppError;

fn character_fields(name: &str) -> CharacterFields {
    CharacterFields {
        name: name.to_string(),
        avatar: "avatar.png".to_string(),
        notes: "notes".to_string(),
        quote: "quote".to_string(),
    }
}

fn skill_fields(name: &str, progress: u8, level: u8) -> SkillFields {
    SkillFields { name: name.to_string(), progress, level }
}

fn task_fields(name: &str, completed: u8) -> TaskFields {
    TaskFields { name: name.to_string(), description: "desc".to_string(), completed }
}

#[test]
fn create_character_round_trip() {
    let mut db = create_db();
    let id = create_character(&mut db, character_fields("Ada"), 100).unwrap();
    assert_eq!(id, 1);
    let c = get_character(&db, id).unwrap();
    assert_eq!(c.id, 1);
    assert_eq!(c.fields.name, "Ada");
    assert_eq!(c.fields.avatar, "avatar.png");
    assert_eq!(c.fields.notes, "notes");
    assert_eq!(c.fields.quote, "quote");
    assert_eq!(c.created_at, 100);
    assert_eq!(c.updated_at, 100);
}

#[test]
fn create_skill_round_trip() {
    let mut db = create_db();
    create_character(&mut db, character_fields("Ada"), 100).unwrap();
    let id = create_skill(&mut db, 1, skill_fields("Logic", 3, 2), 200).unwrap();
    assert_eq!(id, 1);
    let s = get_skill(&db, id).unwrap();
    assert_eq!(s.fields.name, "Logic");
    assert_eq!(s.fields.progress, 3);
    assert_eq!(s.fields.level, 2);
    assert_eq!(s.character_id, 1);
    assert_eq!(s.created_at, 200);
    assert_eq!(s.updated_at, 200);
}

#[test]
fn create_task_round_trip() {
    let mut db = create_db();
    create_character(&mut db, character_fields("Ada"), 100).unwrap();
    create_skill(&mut db, 1, skill_fields("Logic", 0, 1), 200).unwrap();
    let id = create_task(&mut db, 1, task_fields("Prove theorem", 0), 300).unwrap();
    assert_eq!(id, 1);
    let t = get_task(&db, id).unwrap();
    assert_eq!(t.fields.name, "Prove theorem");
    assert_eq!(t.fields.description, "desc");
    assert_eq!(t.fields.completed, 0);
    assert_eq!(t.skill_id, 1);
    assert_eq!(t.created_at, 300);
    assert_eq!(t.updated_at, 300);
}

#[test]
fn scenario_three_levels_cascade() {
    let mut db = create_db();
    let cid = create_character(&mut db, character_fields("Ada"), 100).unwrap();
    assert_eq!(cid, 1);

    let sid = create_skill(&mut db, 1, skill_fields("Logic", 0, 1), 200).unwrap();
    assert_eq!(sid, 1);
    // the character's updated_at advances to the skill's timestamp
    assert_eq!(get_character(&db, 1).unwrap().updated_at, 200);

    let tid = create_task(&mut db, 1, task_fields("Prove theorem", 0), 300).unwrap();
    assert_eq!(tid, 1);
    // both the skill's and the character's updated_at advance to the task's
    // timestamp
    assert_eq!(get_skill(&db, 1).unwrap().updated_at, 300);
    assert_eq!(get_character(&db, 1).unwrap().updated_at, 300);

    // deleting the skill removes its task and advances the character again
    delete_skill(&mut db, 1, 400).unwrap();
    assert!(matches!(get_task(&db, 1), Err(AppError::NotFound)));
    assert!(matches!(get_skill(&db, 1), Err(AppError::NotFound)));
    assert_eq!(get_character(&db, 1).unwrap().updated_at, 400);
}

#[test]
fn cascade_timestamp_on_task_update() {
    let mut db = create_db();
    create_character(&mut db, character_fields("Ada"), 100).unwrap();
    create_skill(&mut db, 1, skill_fields("Logic", 0, 1), 200).unwrap();
    create_task(&mut db, 1, task_fields("Prove theorem", 0), 300).unwrap();

    update_task(&mut db, 1, task_fields("Prove theorem", 1), 500).unwrap();
    assert_eq!(get_task(&db, 1).unwrap().updated_at, 500);
    assert_eq!(get_task(&db, 1).unwrap().created_at, 300);
    assert_eq!(get_task(&db, 1).unwrap().fields.completed, 1);
    assert_eq!(get_skill(&db, 1).unwrap().updated_at, 500);
    assert_eq!(get_skill(&db, 1).unwrap().created_at, 200);
    assert_eq!(get_character(&db, 1).unwrap().updated_at, 500);
    assert_eq!(get_character(&db, 1).unwrap().created_at, 100);
}

#[test]
fn cascade_timestamp_on_task_delete() {
    let mut db = create_db();
    create_character(&mut db, character_fields("Ada"), 100).unwrap();
    create_skill(&mut db, 1, skill_fields("Logic", 0, 1), 200).unwrap();
    create_task(&mut db, 1, task_fields("Prove theorem", 0), 300).unwrap();

    delete_task(&mut db, 1, 600).unwrap();
    assert!(matches!(get_task(&db, 1), Err(AppError::NotFound)));
    assert_eq!(get_skill(&db, 1).unwrap().updated_at, 600);
    assert_eq!(get_character(&db, 1).unwrap().updated_at, 600);
}

#[test]
fn cascade_timestamp_on_skill_update() {
    let mut db = create_db();
    create_character(&mut db, character_fields("Ada"), 100).unwrap();
    create_skill(&mut db, 1, skill_fields("Logic", 0, 1), 200).unwrap();

    update_skill(&mut db, 1, skill_fields("Rhetoric", 9, 4), 700).unwrap();
    let s = get_skill(&db, 1).unwrap();
    assert_eq!(s.fields.name, "Rhetoric");
    assert_eq!(s.fields.progress, 9);
    assert_eq!(s.fields.level, 4);
    assert_eq!(s.created_at, 200);
    assert_eq!(s.updated_at, 700);
    assert_eq!(get_character(&db, 1).unwrap().updated_at, 700);
}

#[test]
fn character_update_touches_no_parent_and_keeps_created_at() {
    let mut db = create_db();
    create_character(&mut db, character_fields("Ada"), 100).unwrap();
    update_character(&mut db, 1, character_fields("Lovelace"), 900).unwrap();
    let c = get_character(&db, 1).unwrap();
    assert_eq!(c.fields.name, "Lovelace");
    assert_eq!(c.created_at, 100);
    assert_eq!(c.updated_at, 900);
}

#[test]
fn touch_changes_only_updated_at() {
    let mut db = create_db();
    create_character(&mut db, character_fields("Ada"), 100).unwrap();
    create_skill(&mut db, 1, skill_fields("Logic", 5, 3), 200).unwrap();

    touch_character(&mut db, 1, 1000);
    let c = get_character(&db, 1).unwrap();
    assert_eq!(c.updated_at, 1000);
    assert_eq!(c.created_at, 100);
    assert_eq!(c.fields.name, "Ada");

    touch_skill(&mut db, 1, 1100);
    let s = get_skill(&db, 1).unwrap();
    assert_eq!(s.updated_at, 1100);
    assert_eq!(s.created_at, 200);
    assert_eq!(s.fields.progress, 5);
}

#[test]
fn delete_character_cascades_to_skills_and_tasks() {
    let mut db = create_db();
    create_character(&mut db, character_fields("Ada"), 100).unwrap();
    create_character(&mut db, character_fields("Grace"), 100).unwrap();
    create_skill(&mut db, 1, skill_fields("Logic", 0, 1), 200).unwrap();
    create_skill(&mut db, 2, skill_fields("Compilers", 0, 1), 200).unwrap();
    create_skill(&mut db, 1, skill_fields("Poetry", 0, 1), 200).unwrap();
    create_task(&mut db, 1, task_fields("Prove theorem", 0), 300).unwrap();
    create_task(&mut db, 2, task_fields("Write compiler", 0), 300).unwrap();
    create_task(&mut db, 3, task_fields("Write poem", 0), 300).unwrap();

    delete_character(&mut db, 1).unwrap();

    assert!(matches!(get_character(&db, 1), Err(AppError::NotFound)));
    assert!(matches!(get_skill(&db, 1), Err(AppError::NotFound)));
    assert!(matches!(get_skill(&db, 3), Err(AppError::NotFound)));
    assert!(matches!(get_task(&db, 1), Err(AppError::NotFound)));
    assert!(matches!(get_task(&db, 3), Err(AppError::NotFound)));

    // the other character and its rows survive
    assert_eq!(get_character(&db, 2).unwrap().fields.name, "Grace");
    assert_eq!(get_skill(&db, 2).unwrap().fields.name, "Compilers");
    assert_eq!(get_task(&db, 2).unwrap().fields.name, "Write compiler");
}

#[test]
fn not_found_boundary_for_every_entity() {
    let mut db = create_db();
    assert!(matches!(get_character(&db, 999), Err(AppError::NotFound)));
    assert!(matches!(get_skill(&db, 999), Err(AppError::NotFound)));
    assert!(matches!(get_task(&db, 999), Err(AppError::NotFound)));
    assert!(matches!(
        update_character(&mut db, 999, character_fields("x"), 1),
        Err(AppError::NotFound)
    ));
    assert!(matches!(
        update_skill(&mut db, 999, skill_fields("x", 0, 0), 1),
        Err(AppError::NotFound)
    ));
    assert!(matches!(update_task(&mut db, 999, task_fields("x", 0), 1), Err(AppError::NotFound)));
    assert!(matches!(delete_character(&mut db, 999), Err(AppError::NotFound)));
    assert!(matches!(delete_skill(&mut db, 999, 1), Err(AppError::NotFound)));
    assert!(matches!(delete_task(&mut db, 999, 1), Err(AppError::NotFound)));
}

#[test]
fn foreign_key_violations_are_database_errors() {
    let mut db = create_db();
    assert!(matches!(
        create_skill(&mut db, 42, skill_fields("Logic", 0, 1), 1),
        Err(AppError::DBError { .. })
    ));
    assert!(matches!(
        create_task(&mut db, 42, task_fields("Orphan", 0), 1),
        Err(AppError::DBError { .. })
    ));
}

#[test]
fn completed_check_constraint() {
    let mut db = create_db();
    create_character(&mut db, character_fields("Ada"), 100).unwrap();
    create_skill(&mut db, 1, skill_fields("Logic", 0, 1), 200).unwrap();
    assert!(matches!(
        create_task(&mut db, 1, task_fields("Bad", 2), 300),
        Err(AppError::DBError { .. })
    ));
    create_task(&mut db, 1, task_fields("Good", 1), 300).unwrap();
    assert!(matches!(
        update_task(&mut db, 1, task_fields("Bad", 7), 400),
        Err(AppError::DBError { .. })
    ));
}

#[test]
fn ids_are_sequential_and_not_reused() {
    let mut db = create_db();
    assert_eq!(create_character(&mut db, character_fields("A"), 1).unwrap(), 1);
    assert_eq!(create_character(&mut db, character_fields("B"), 1).unwrap(), 2);
    delete_character(&mut db, 2).unwrap();
    // the deleted id is not handed out again within the live instance
    assert_eq!(create_character(&mut db, character_fields("C"), 1).unwrap(), 3);
}

#[test]
fn lists_keep_table_order_and_filter() {
    let mut db = create_db();
    create_character(&mut db, character_fields("A"), 1).unwrap();
    create_character(&mut db, character_fields("B"), 1).unwrap();
    create_skill(&mut db, 1, skill_fields("S1", 0, 0), 2).unwrap();
    create_skill(&mut db, 2, skill_fields("S2", 0, 0), 2).unwrap();
    create_skill(&mut db, 1, skill_fields("S3", 0, 0), 2).unwrap();
    create_task(&mut db, 1, task_fields("T1", 0), 3).unwrap();
    create_task(&mut db, 3, task_fields("T2", 0), 3).unwrap();
    create_task(&mut db, 1, task_fields("T3", 0), 3).unwrap();

    let characters = get_character_list(&db).0;
    assert_eq!(characters.len(), 2);
    assert_eq!(characters[0].fields.name, "A");
    assert_eq!(characters[1].fields.name, "B");

    let all_skills = get_skill_list(&db, None).0;
    assert_eq!(all_skills.len(), 3);
    let skills_of_one = get_skill_list(&db, Some(1)).0;
    assert_eq!(skills_of_one.len(), 2);
    assert_eq!(skills_of_one[0].fields.name, "S1");
    assert_eq!(skills_of_one[1].fields.name, "S3");

    let all_tasks = get_task_list(&db, None).0;
    assert_eq!(all_tasks.len(), 3);
    let tasks_of_one = get_task_list(&db, Some(1)).0;
    assert_eq!(tasks_of_one.len(), 2);
    assert_eq!(tasks_of_one[0].fields.name, "T1");
    assert_eq!(tasks_of_one[1].fields.name, "T3");
}

#[test]
fn skill_range_boundaries_are_accepted() {
    let mut db = create_db();
    create_character(&mut db, character_fields("A"), 1).unwrap();
    create_skill(&mut db, 1, skill_fields("Min", 0, 0), 2).unwrap();
    create_skill(&mut db, 1, skill_fields("Max", 255, 255), 2).unwrap();
    let s = get_skill(&db, 2).unwrap();
    assert_eq!(s.fields.progress, 255);
    assert_eq!(s.fields.level, 255);
}

#[test]
fn clear_db_empties_every_table() {
    let mut db = create_db();
    create_character(&mut db, character_fields("A"), 1).unwrap();
    create_skill(&mut db, 1, skill_fields("S", 0, 0), 2).unwrap();
    create_task(&mut db, 1, task_fields("T", 0), 3).unwrap();
    clear_db(&mut db);
    assert!(get_character_list(&db).0.is_empty());
    assert!(get_skill_list(&db, None).0.is_empty());
    assert!(get_task_list(&db, None).0.is_empty());
}

#[test]
fn reset_db_is_idempotent() {
    let mut db = create_db();
    create_character(&mut db, character_fields("A"), 1).unwrap();
    create_skill(&mut db, 1, skill_fields("S", 0, 0), 2).unwrap();

    assert!(matches!(execute(&mut db, Query::ResetDB), Ok(QueryResult::Success)));
    assert!(get_character_list(&db).0.is_empty());
    assert!(get_skill_list(&db, None).0.is_empty());
    assert!(get_task_list(&db, None).0.is_empty());
    assert_eq!(create_character(&mut db, character_fields("A"), 1).unwrap(), 1);

    assert!(matches!(execute(&mut db, Query::ResetDB), Ok(QueryResult::Success)));
    assert!(matches!(execute(&mut db, Query::ResetDB), Ok(QueryResult::Success)));
    assert!(get_character_list(&db).0.is_empty());
    assert!(get_skill_list(&db, None).0.is_empty());
    assert!(get_task_list(&db, None).0.is_empty());
    // identical state again: id assignment starts over as well
    assert_eq!(create_character(&mut db, character_fields("A"), 1).unwrap(), 1);
}
