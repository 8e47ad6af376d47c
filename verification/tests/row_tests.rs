use game_of_life_api::model::row::{to_character, to_skill, to_task, ColumnValue, MappingError};

fn text(s: &str) -> ColumnValue {
    ColumnValue::Text(s.to_string())
}

fn integer(v: i64) -> ColumnValue {
    ColumnValue::Integer(v)
}

fn character_row() -> Vec<ColumnValue> {
    vec![integer(1), text("Ada"), text("a.png"), text("notes"), text("quote"), integer(10), integer(20)]
}

fn skill_row() -> Vec<ColumnValue> {
    vec![integer(2), text("Logic"), integer(5), integer(3), integer(1), integer(10), integer(20)]
}

fn task_row() -> Vec<ColumnValue> {
    vec![integer(4), text("Prove"), text("desc"), integer(1), integer(2), integer(10), integer(20)]
}

#[test]
fn character_row_maps_to_record() {
    let c = to_character(&character_row()).unwrap();
    assert_eq!(c.id, 1);
    assert_eq!(c.fields.name, "Ada");
    assert_eq!(c.fields.avatar, "a.png");
    assert_eq!(c.fields.notes, "notes");
    assert_eq!(c.fields.quote, "quote");
    assert_eq!(c.created_at, 10);
    assert_eq!(c.updated_at, 20);
}

#[test]
fn skill_row_maps_to_record() {
    let s = to_skill(&skill_row()).unwrap();
    assert_eq!(s.id, 2);
    assert_eq!(s.fields.name, "Logic");
    assert_eq!(s.fields.progress, 5);
    assert_eq!(s.fields.level, 3);
    assert_eq!(s.character_id, 1);
    assert_eq!(s.created_at, 10);
    assert_eq!(s.updated_at, 20);
}

#[test]
fn task_row_maps_to_record() {
    let t = to_task(&task_row()).unwrap();
    assert_eq!(t.id, 4);
    assert_eq!(t.fields.name, "Prove");
    assert_eq!(t.fields.description, "desc");
    assert_eq!(t.fields.completed, 1);
    assert_eq!(t.skill_id, 2);
    assert_eq!(t.created_at, 10);
    assert_eq!(t.updated_at, 20);
}

#[test]
fn wrong_column_count_is_reported() {
    let mut row = character_row();
    row.pop();
    assert!(matches!(to_character(&row), Err(MappingError::ColumnCount)));
    assert!(matches!(to_skill(&vec![]), Err(MappingError::ColumnCount)));
    assert!(matches!(to_task(&vec![integer(1)]), Err(MappingError::ColumnCount)));
}

#[test]
fn wrong_column_type_names_the_column() {
    let mut row = character_row();
    row[1] = integer(9);
    assert!(matches!(to_character(&row), Err(MappingError::ColumnType { index: 1 })));

    let mut row = skill_row();
    row[0] = text("not an id");
    assert!(matches!(to_skill(&row), Err(MappingError::ColumnType { index: 0 })));

    let mut row = task_row();
    row[5] = text("not a timestamp");
    assert!(matches!(to_task(&row), Err(MappingError::ColumnType { index: 5 })));
}

#[test]
fn integers_out_of_range_are_rejected() {
    let mut row = character_row();
    row[0] = integer(-1);
    assert!(matches!(to_character(&row), Err(MappingError::ColumnType { index: 0 })));

    let mut row = skill_row();
    row[2] = integer(256);
    assert!(matches!(to_skill(&row), Err(MappingError::ColumnType { index: 2 })));

    let mut row = task_row();
    row[3] = integer(-3);
    assert!(matches!(to_task(&row), Err(MappingError::ColumnType { index: 3 })));
}

#[test]
fn row_round_trip_for_a_character() {
    let c = to_character(&character_row()).unwrap();
    let rebuilt = vec![
        integer(c.id as i64),
        text(&c.fields.name),
        text(&c.fields.avatar),
        text(&c.fields.notes),
        text(&c.fields.quote),
        integer(c.created_at as i64),
        integer(c.updated_at as i64),
    ];
    let again = to_character(&rebuilt).unwrap();
    assert_eq!(again.id, c.id);
    assert_eq!(again.fields.name, c.fields.name);
    assert_eq!(again.created_at, c.created_at);
    assert_eq!(again.updated_at, c.updated_at);
}
