use bevy_yoleck::editor::YoleckEditorState;
use bevy_yoleck::entity_management::{
    entities_to_despawn, entity_copy_entry, entity_raw_entry, gen_raw_level_file,
    yoleck_prepare_populate_schedule, yoleck_process_raw_entry, YoleckEntryHeader, YoleckRawEntry,
    LEVEL_FORMAT_VERSION,
};
use bevy_yoleck::entity_ref::{
    apply_entity_ref_choice, auto_edit_field_accepts_drop, edit_field_accepts_drop,
    entity_ref_label, entity_ref_option_label, entity_ref_options, entity_ref_select_step,
    referenced_entity_label, validate_entity_ref_requirements, EntityRefRequirement,
    YoleckEntityRef,
};
use bevy_yoleck::entity_uuid::{yoleck_map_entity_to_uuid, YoleckEntityUuid, YoleckUuidRegistry};
use bevy_yoleck::exclusive_systems::YoleckExclusiveSystemDirective;
use bevy_yoleck::json::{JsonNumber, JsonValue};
use bevy_yoleck::populating::PopulateReason;
use bevy_yoleck::specs_registration::{YoleckEntityConstructionSpecs, YoleckEntityType};
use bevy_yoleck::YoleckEntityLifecycleStatus;

const UUID: u128 = 0x67e55044_10b1_426f_9247_bb680e5fe0c8;

fn num(n: u64) -> JsonValue {
    JsonValue::Number(JsonNumber::PosInt(n))
}

fn specs() -> YoleckEntityConstructionSpecs {
    let mut specs = YoleckEntityConstructionSpecs::new();
    let handlers = specs.add_yoleck_entity_type(
        YoleckEntityType::new("Foo".to_string())
            .with("Pos".to_string())
            .with("Color".to_string())
            .with_uuid()
            .insert_on_init_during_editor()
            .insert_on_init(),
    );
    assert_eq!(handlers, vec!["Pos".to_string(), "Color".to_string()]);
    let handlers = specs.add_yoleck_entity_type(YoleckEntityType::new("Bar".to_string()).with("Pos".to_string()));
    assert!(handlers.is_empty());
    specs
}

fn foo_entry(uuid: Option<u128>) -> YoleckRawEntry {
    YoleckRawEntry {
        header: YoleckEntryHeader { entity_type: "Foo".into(), name: "door".into(), uuid },
        data: JsonValue::Object(vec![("Pos".into(), num(5)), ("Other".into(), num(6))]),
    }
}

#[test]
fn processing_a_raw_entry() {
    let specs = specs();
    let mut registry = YoleckUuidRegistry::new();
    let r = yoleck_process_raw_entry(foo_entry(Some(UUID)), 7, &specs, YoleckEditorState::GameActive, &mut registry);
    assert!(r.type_registered);
    assert_eq!(r.uuid, Some(UUID));
    assert_eq!(registry.get(UUID), Some(7));
    assert_eq!(r.managed.name, "door");
    assert_eq!(r.components.len(), 2);
    assert_eq!(r.components[0], ("Pos".to_string(), Some(num(5))));
    assert_eq!(r.components[1], ("Color".to_string(), None));
    assert_eq!(r.on_init, vec![1]);
}

#[test]
fn an_entity_without_uuid_gets_a_fresh_version_4_one() {
    let specs = specs();
    let mut registry = YoleckUuidRegistry::new();
    let r = yoleck_process_raw_entry(foo_entry(None), 7, &specs, YoleckEditorState::EditorActive, &mut registry);
    let u = r.uuid.unwrap();
    assert_eq!((u >> 76) & 0xf, 4);
    assert_eq!((u >> 62) & 0x3, 2);
    assert_eq!(registry.get(u), Some(7));
    assert_eq!(r.on_init, vec![0, 1]);
}

#[test]
fn an_unregistered_type_gets_no_components() {
    let specs = specs();
    let mut registry = YoleckUuidRegistry::new();
    let mut entry = foo_entry(Some(UUID));
    entry.header.entity_type = "Baz".into();
    let r = yoleck_process_raw_entry(entry, 7, &specs, YoleckEditorState::EditorActive, &mut registry);
    assert!(!r.type_registered);
    assert_eq!(r.uuid, None);
    assert!(r.components.is_empty());
    assert_eq!(registry.get(UUID), None);
}

#[test]
fn saving_and_copying_an_entity() {
    let specs = specs();
    let mut registry = YoleckUuidRegistry::new();
    let r = yoleck_process_raw_entry(foo_entry(Some(UUID)), 7, &specs, YoleckEditorState::EditorActive, &mut registry);
    let mut managed = r.managed;
    managed.init_component_data("Pos", num(5));
    managed.init_component_data("Other", num(9));
    let saved = entity_raw_entry(&managed, Some(UUID), &specs);
    assert_eq!(saved.header.uuid, Some(UUID));
    assert_eq!(saved.data, JsonValue::Object(vec![("Pos".into(), num(5))]));
    let copied = entity_copy_entry(&managed, &specs).unwrap();
    assert_eq!(copied.header.uuid, None);
    assert_eq!(copied.data, JsonValue::Object(vec![("Pos".into(), num(5))]));
    managed.update_component_data("Pos", num(6), false);
    assert_eq!(managed.component_data("Pos"), Some(&num(6)));
    let level = gen_raw_level_file(None, vec![saved]);
    assert_eq!(level.header().format_version, LEVEL_FORMAT_VERSION);
    assert_eq!(level.header().app_format_version, 0);
    assert_eq!(level.entries().len(), 1);
}

#[test]
fn unregistered_entities_are_saved_with_null_data_and_not_copied() {
    let specs = specs();
    let mut registry = YoleckUuidRegistry::new();
    let mut entry = foo_entry(None);
    entry.header.entity_type = "Baz".into();
    let managed = yoleck_process_raw_entry(entry, 7, &specs, YoleckEditorState::EditorActive, &mut registry).managed;
    assert_eq!(entity_raw_entry(&managed, None, &specs).data, JsonValue::Null);
    assert!(entity_copy_entry(&managed, &specs).is_none());
}

#[test]
fn populate_schedule() {
    let mut statuses = vec![
        (1, YoleckEntityLifecycleStatus::Synchronized),
        (2, YoleckEntityLifecycleStatus::JustCreated),
        (3, YoleckEntityLifecycleStatus::JustChanged),
    ];
    let (to_populate, needs_saving) = yoleck_prepare_populate_schedule(&mut statuses, YoleckEditorState::EditorActive);
    assert_eq!(to_populate, vec![(2, PopulateReason::EditorInit), (3, PopulateReason::EditorUpdate)]);
    assert!(needs_saving);
    assert!(statuses.iter().all(|(_, s)| *s == YoleckEntityLifecycleStatus::Synchronized));
    let mut game = vec![(4, YoleckEntityLifecycleStatus::JustCreated)];
    let (to_populate, needs_saving) = yoleck_prepare_populate_schedule(&mut game, YoleckEditorState::GameActive);
    assert_eq!(to_populate, vec![(4, PopulateReason::RealGame)]);
    assert!(!needs_saving);
}

#[test]
fn unloading_levels() {
    assert_eq!(entities_to_despawn(&vec![100], &vec![(1, 100), (2, 200), (3, 100)]), vec![1, 3]);
}

#[test]
fn uuid_registry_reads_back_the_latest_write() {
    let mut registry = YoleckUuidRegistry::new();
    registry.insert(1, 10);
    registry.insert(2, 20);
    registry.insert(1, 11);
    assert_eq!(registry.get(1), Some(11));
    assert_eq!(registry.get(2), Some(20));
    assert_eq!(registry.get(3), None);
}

#[test]
fn mapping_entities_to_uuids() {
    let uuids = vec![(5, YoleckEntityUuid::new(55)), (6, YoleckEntityUuid::new(66))];
    assert_eq!(yoleck_map_entity_to_uuid(Some(6), &uuids), Some(66));
    assert_eq!(yoleck_map_entity_to_uuid(Some(7), &uuids), None);
    assert_eq!(yoleck_map_entity_to_uuid(None, &uuids), None);
}

#[test]
fn entity_references() {
    let mut registry = YoleckUuidRegistry::new();
    registry.insert(UUID, 42);
    let mut r = YoleckEntityRef::from_uuid(UUID);
    assert!(r.is_some());
    assert_eq!(r.get_entity(), None);
    r.resolve(&registry);
    assert_eq!(r.get_entity(), Some(42));
    r.clear();
    assert!(r.is_none());
    r.resolve(&registry);
    assert_eq!(r.get_entity(), None);
    assert_eq!(entity_ref_select_step(&mut r, None), YoleckExclusiveSystemDirective::Listening);
    assert_eq!(entity_ref_select_step(&mut r, Some(UUID)), YoleckExclusiveSystemDirective::Finished);
    assert_eq!(r.get_uuid(), Some(UUID));
    apply_entity_ref_choice(&mut r, Some(None));
    assert!(r.is_none());
    apply_entity_ref_choice(&mut r, Some(Some(5)));
    assert_eq!(r.get_uuid(), Some(5));
    apply_entity_ref_choice(&mut r, None);
    assert_eq!(r.get_uuid(), Some(5));
}

#[test]
fn entity_reference_labels() {
    assert_eq!(referenced_entity_label("Foo", "", UUID), "Foo (67e55044)");
    assert_eq!(referenced_entity_label("Foo", "door", UUID), "Foo - door");
    assert_eq!(
        entity_ref_option_label("Foo", "", UUID),
        "Foo (67e55044-10b1-426f-9247-bb680e5fe0c8)"
    );
    assert_eq!(entity_ref_option_label("Foo", "door", UUID), "Foo - door");
    let mut r = YoleckEntityRef::new();
    assert_eq!(entity_ref_label(&r, None), "None");
    r.set(UUID);
    assert_eq!(entity_ref_label(&r, None), "67e55044-10b1-426f-9247-bb680e5fe0c8");
    let mut registry = YoleckUuidRegistry::new();
    registry.insert(UUID, 1);
    r.resolve(&registry);
    assert_eq!(entity_ref_label(&r, Some(("Foo", "door"))), "Foo - door");
    assert_eq!(entity_ref_label(&r, None), "Unknown");
}

#[test]
fn entity_reference_filters() {
    assert!(edit_field_accepts_drop(None, None));
    assert!(!edit_field_accepts_drop(Some("Foo"), None));
    assert!(edit_field_accepts_drop(Some("Foo"), Some("Foo")));
    assert!(!edit_field_accepts_drop(Some("Foo"), Some("Bar")));
    assert!(!auto_edit_field_accepts_drop(Some("Foo"), None));
    assert!(!auto_edit_field_accepts_drop(Some("Foo"), Some("Bar")));
    assert!(auto_edit_field_accepts_drop(Some("Foo"), Some("Foo")));
    assert!(auto_edit_field_accepts_drop(None, None));
    let types = vec!["Foo".to_string(), "Bar".to_string(), "Foo".to_string()];
    assert_eq!(entity_ref_options(Some("Foo"), &types), vec![0, 2]);
    assert_eq!(entity_ref_options(None, &types), vec![0, 1, 2]);
}

#[test]
fn entity_reference_requirements() {
    let specs = specs();
    let requirements = vec![
        EntityRefRequirement {
            component_type: "C".into(),
            field_name: "f".into(),
            required_entity_type: "Foo".into(),
        },
        EntityRefRequirement {
            component_type: "C".into(),
            field_name: "g".into(),
            required_entity_type: "Bar".into(),
        },
        EntityRefRequirement {
            component_type: "C".into(),
            field_name: "h".into(),
            required_entity_type: "Unknown".into(),
        },
    ];
    assert_eq!(validate_entity_ref_requirements(&requirements, &specs), vec![1]);
}
