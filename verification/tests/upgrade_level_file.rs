use bevy_yoleck::json::{JsonNumber, JsonValue};
use bevy_yoleck::level_files_upgrading::{upgrade_level_file, LevelUpgradeError};

fn num(n: u64) -> JsonValue {
    JsonValue::Number(JsonNumber::PosInt(n))
}

fn text(s: &str) -> JsonValue {
    JsonValue::String(s.to_string())
}

fn obj(members: Vec<(&str, JsonValue)>) -> JsonValue {
    JsonValue::Object(members.into_iter().map(|(k, v)| (k.to_string(), v)).collect())
}

fn arr(elements: Vec<JsonValue>) -> JsonValue {
    JsonValue::Array(elements)
}

fn v1_level() -> JsonValue {
    arr(vec![
        obj(vec![("format_version", num(1))]),
        obj(vec![]),
        arr(vec![arr(vec![
            obj(vec![("type", text("Foo")), ("name", text(""))]),
            obj(vec![("foo", num(42))]),
        ])]),
    ])
}

fn v2_level() -> JsonValue {
    arr(vec![
        obj(vec![("format_version", num(2))]),
        obj(vec![]),
        arr(vec![arr(vec![
            obj(vec![("type", text("Foo")), ("name", text(""))]),
            obj(vec![("Foo", obj(vec![("foo", num(42))]))]),
        ])]),
    ])
}

#[test]
fn test_upgrade_v1_to_v2() {
    let orig_level = v1_level();
    let upgraded_level = upgrade_level_file(orig_level).unwrap();
    assert_eq!(upgraded_level, v2_level());
}

#[test]
fn upgrading_an_upgraded_level_changes_nothing() {
    let once = upgrade_level_file(v1_level()).unwrap();
    let twice = upgrade_level_file(once).unwrap();
    assert_eq!(twice, v2_level());
}

#[test]
fn a_level_without_entities_only_gets_its_version_raised() {
    let level = arr(vec![obj(vec![("format_version", num(1))]), obj(vec![]), arr(vec![])]);
    let upgraded = upgrade_level_file(level).unwrap();
    assert_eq!(
        upgraded,
        arr(vec![obj(vec![("format_version", num(2))]), obj(vec![]), arr(vec![])])
    );
}

#[test]
fn a_newer_format_version_is_kept() {
    let level = arr(vec![obj(vec![("format_version", num(7))]), obj(vec![]), arr(vec![])]);
    let upgraded = upgrade_level_file(level).unwrap();
    assert_eq!(
        upgraded,
        arr(vec![obj(vec![("format_version", num(7))]), obj(vec![]), arr(vec![])])
    );
}

#[test]
fn upgrade_errors() {
    assert_eq!(upgrade_level_file(obj(vec![])), Err(LevelUpgradeError::NotAnArray));
    assert_eq!(upgrade_level_file(arr(vec![])), Err(LevelUpgradeError::EmptyArray));
    assert_eq!(
        upgrade_level_file(arr(vec![num(1)])),
        Err(LevelUpgradeError::HeaderNotAnObject)
    );
    assert_eq!(
        upgrade_level_file(arr(vec![obj(vec![])])),
        Err(LevelUpgradeError::MissingFormatVersion)
    );
    assert_eq!(
        upgrade_level_file(arr(vec![obj(vec![("format_version", text("1"))])])),
        Err(LevelUpgradeError::FormatVersionNotANumber)
    );
    assert_eq!(
        upgrade_level_file(arr(vec![
            obj(vec![("format_version", JsonValue::Number(JsonNumber::NegInt(-1)))])
        ])),
        Err(LevelUpgradeError::FormatVersionNotANumber)
    );
    assert_eq!(
        upgrade_level_file(arr(vec![obj(vec![("format_version", num(1))]), obj(vec![])])),
        Err(LevelUpgradeError::MissingEntityList)
    );
    assert_eq!(
        upgrade_level_file(arr(vec![
            obj(vec![("format_version", num(1))]),
            obj(vec![]),
            obj(vec![])
        ])),
        Err(LevelUpgradeError::EntityListNotAnArray)
    );
    assert_eq!(
        upgrade_level_file(arr(vec![
            obj(vec![("format_version", num(1))]),
            obj(vec![]),
            arr(vec![arr(vec![obj(vec![("name", text(""))]), obj(vec![])])])
        ])),
        Err(LevelUpgradeError::EntityMissingType)
    );
    assert_eq!(
        upgrade_level_file(arr(vec![
            obj(vec![("format_version", num(1))]),
            obj(vec![]),
            arr(vec![arr(vec![obj(vec![("type", num(3))]), obj(vec![])])])
        ])),
        Err(LevelUpgradeError::EntityTypeNotAString)
    );
    assert_eq!(
        upgrade_level_file(arr(vec![
            obj(vec![("format_version", num(1))]),
            obj(vec![]),
            arr(vec![arr(vec![obj(vec![("type", text("Foo"))])])])
        ])),
        Err(LevelUpgradeError::EntityMissingData)
    );
}

#[test]
fn upgrade_error_messages() {
    assert_eq!(LevelUpgradeError::NotAnArray.message(), "Level file must be an array");
    assert_eq!(
        LevelUpgradeError::MissingFormatVersion.message(),
        "Level file header must have a `format_version` field"
    );
    assert_eq!(LevelUpgradeError::EntityMissingData.message(), "Entity must have data");
}
