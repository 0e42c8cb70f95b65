use bevy_yoleck::editing::{QuerySingleError, YoleckEdit};
use bevy_yoleck::json::{find_key, set_key, JsonValue};

#[test]
fn single_needs_exactly_one_edited_entity() {
    let edit = YoleckEdit::new(vec![7u64], 1);
    assert_eq!(edit.single(), Ok(&7));
    assert!(!edit.is_empty());
    assert!(!edit.has_nonmatching());
    let none: YoleckEdit<u64> = YoleckEdit::new(vec![], 0);
    assert_eq!(none.single(), Err(QuerySingleError::NoEntities));
    assert!(none.is_empty());
    let nothing_matches: YoleckEdit<u64> = YoleckEdit::new(vec![], 2);
    assert_eq!(nothing_matches.single(), Err(QuerySingleError::NoEntities));
    assert!(nothing_matches.has_nonmatching());
}

#[test]
fn single_refuses_when_other_entities_are_edited_too() {
    let one_of_two = YoleckEdit::new(vec![7u64], 2);
    assert_eq!(one_of_two.single(), Err(QuerySingleError::MultipleEntities));
    assert!(one_of_two.has_nonmatching());
    let two = YoleckEdit::new(vec![7u64, 8], 2);
    assert_eq!(two.single(), Err(QuerySingleError::MultipleEntities));
    assert_eq!(two.iter_matching(), &vec![7, 8]);
}

#[test]
fn single_mut_writes_the_item() {
    let mut edit = YoleckEdit::new(vec![7u64], 1);
    if let Ok(item) = edit.single_mut() {
        *item = 9;
    }
    assert_eq!(edit.single(), Ok(&9));
    let mut two = YoleckEdit::new(vec![7u64, 8], 2);
    assert_eq!(two.single_mut(), Err(QuerySingleError::MultipleEntities));
}

#[test]
fn setting_a_key_twice_keeps_one_member() {
    let mut members: Vec<(String, JsonValue)> = Vec::new();
    set_key(&mut members, "a", JsonValue::Bool(true));
    set_key(&mut members, "b", JsonValue::Null);
    set_key(&mut members, "a", JsonValue::Bool(false));
    assert_eq!(members.len(), 2);
    assert_eq!(find_key(&members, "a"), Some(0));
    assert_eq!(members[0].1, JsonValue::Bool(false));
    assert_eq!(find_key(&members, "c"), None);
}
