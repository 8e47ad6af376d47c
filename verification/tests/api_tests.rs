use game_of_life_api::api::{
    character_list_result, character_result, parse_id, skill_list_result, skill_result,
    success_result, task_list_result, task_result,
};
use game_of_life_api::db::QueryResult;
use game_of_life_api::model::character::{Character, CharacterFields};
use game_of_life_api::AppError;

fn sample_character() -> Character {
    Character {
        id: 3,
        fields: CharacterFields {
            name: "Ada".to_string(),
            avatar: "a".to_string(),
            notes: "n".to_string(),
            quote: "q".to_string(),
        },
        created_at: 10,
        updated_at: 20,
    }
}

#[test]
fn parse_id_accepts_plain_decimal() {
    assert_eq!(parse_id("0").unwrap(), 0);
    assert_eq!(parse_id("123").unwrap(), 123);
    assert_eq!(parse_id("007").unwrap(), 7);
    assert_eq!(parse_id("18446744073709551615").unwrap(), u64::MAX);
}

#[test]
fn parse_id_accepts_leading_plus_sign() {
    assert_eq!(parse_id("+42").unwrap(), 42);
}

#[test]
fn parse_id_rejects_malformed_segments() {
    assert!(matches!(parse_id(""), Err(AppError::ValidationError { .. })));
    assert!(matches!(parse_id("+"), Err(AppError::ValidationError { .. })));
    assert!(matches!(parse_id("12a"), Err(AppError::ValidationError { .. })));
    assert!(matches!(parse_id("-1"), Err(AppError::ValidationError { .. })));
    assert!(matches!(parse_id(" 1"), Err(AppError::ValidationError { .. })));
    assert!(matches!(parse_id("1.5"), Err(AppError::ValidationError { .. })));
}

#[test]
fn parse_id_rejects_values_out_of_range() {
    // one past the largest id
    assert!(matches!(
        parse_id("18446744073709551616"),
        Err(AppError::ValidationError { .. })
    ));
    assert!(matches!(
        parse_id("99999999999999999999999"),
        Err(AppError::ValidationError { .. })
    ));
}

#[test]
fn parse_id_error_names_the_id_field() {
    match parse_id("abc") {
        Err(AppError::ValidationError { field }) => assert_eq!(field, "id"),
        _ => panic!("expected a validation error"),
    }
}

#[test]
fn result_extractors_accept_the_right_shape() {
    let c = sample_character();
    let out = character_result(Ok(QueryResult::Character(c))).unwrap();
    assert_eq!(out.id, 3);
    assert_eq!(out.fields.name, "Ada");

    assert!(success_result(Ok(QueryResult::Success)).is_ok());
    assert!(character_list_result(Ok(QueryResult::CharacterList(vec![]))).is_ok());
    assert!(skill_list_result(Ok(QueryResult::SkillList(vec![]))).is_ok());
    assert!(task_list_result(Ok(QueryResult::TaskList(vec![]))).is_ok());
}

#[test]
fn result_extractors_reject_the_wrong_shape_as_internal_error() {
    assert!(matches!(
        character_result(Ok(QueryResult::Success)),
        Err(AppError::InternalError)
    ));
    assert!(matches!(
        skill_result(Ok(QueryResult::Success)),
        Err(AppError::InternalError)
    ));
    assert!(matches!(
        task_result(Ok(QueryResult::Success)),
        Err(AppError::InternalError)
    ));
    assert!(matches!(
        success_result(Ok(QueryResult::CharacterList(vec![]))),
        Err(AppError::InternalError)
    ));
    assert!(matches!(
        character_list_result(Ok(QueryResult::Success)),
        Err(AppError::InternalError)
    ));
    assert!(matches!(
        skill_list_result(Ok(QueryResult::Success)),
        Err(AppError::InternalError)
    ));
    assert!(matches!(
        task_list_result(Ok(QueryResult::Success)),
        Err(AppError::InternalError)
    ));
}

#[test]
fn result_extractors_pass_errors_through() {
    assert!(matches!(
        character_result(Err(AppError::NotFound)),
        Err(AppError::NotFound)
    ));
    assert!(matches!(
        success_result(Err(AppError::NotFound)),
        Err(AppError::NotFound)
    ));
    match task_result(Err(AppError::DBError { error_msg: "boom".to_string() })) {
        Err(AppError::DBError { error_msg }) => assert_eq!(error_msg, "boom"),
        _ => panic!("expected the database error through"),
    }
}

#[test]
fn status_codes_follow_the_error_taxonomy() {
    assert_eq!(AppError::ValidationError { field: "id".to_string() }.status_code(), 400);
    assert_eq!(AppError::NotFound.status_code(), 404);
    assert_eq!(AppError::DBError { error_msg: "m".to_string() }.status_code(), 500);
    assert_eq!(AppError::InternalError.status_code(), 500);
    assert_eq!(AppError::NotImplemented.status_code(), 501);
}
