use bevy_yoleck::editor::{
    contains_text, delete_edited_entity, entity_sections_shown, format_caption,
    new_entity_directive, selection_click_directive,
    DirectivesOutcome, EntitySelectionFilter, MarkerCommand, YoleckDirective, YoleckEditorEvent,
    YoleckEditorState, YoleckPassedData, YoleckSyncWithEditorState,
};
use bevy_yoleck::entity_management::{yoleck_process_raw_entry, YoleckEntryHeader, YoleckRawEntry};
use bevy_yoleck::entity_uuid::YoleckUuidRegistry;
use bevy_yoleck::json::{JsonNumber, JsonValue};
use bevy_yoleck::specs_registration::{YoleckEntityConstructionSpecs, YoleckEntityType};
use bevy_yoleck::{YoleckManaged, YoleckState};

fn managed(entity_type: &str, name: &str) -> YoleckManaged {
    let specs = YoleckEntityConstructionSpecs::new();
    let mut registry = YoleckUuidRegistry::new();
    let entry = YoleckRawEntry {
        header: YoleckEntryHeader {
            entity_type: entity_type.to_string(),
            name: name.to_string(),
            uuid: None,
        },
        data: JsonValue::Object(vec![]),
    };
    yoleck_process_raw_entry(entry, 1, &specs, YoleckEditorState::EditorActive, &mut registry)
        .managed
}

#[test]
fn sync_with_editor_state_picks_the_matching_state() {
    let sync = YoleckSyncWithEditorState { when_editor: "edit", when_game: "game" };
    assert_eq!(*sync.state_for(YoleckEditorState::EditorActive), "edit");
    assert_eq!(*sync.state_for(YoleckEditorState::GameActive), "game");
}

#[test]
fn set_selected_deselects_the_others_and_selects_the_target() {
    let mut outcome = DirectivesOutcome::new();
    let mut passed: YoleckPassedData<u32> = YoleckPassedData::new();
    let start = vec![1, 2];
    let r = outcome.process_directive(&mut passed, &start, YoleckDirective::set_selected(Some(3)), false);
    assert!(r.is_none());
    assert_eq!(
        outcome.marker_commands,
        vec![MarkerCommand::Remove(1), MarkerCommand::Remove(2), MarkerCommand::Insert(3)]
    );
    assert_eq!(
        outcome.events,
        vec![
            YoleckEditorEvent::EntityDeselected(1),
            YoleckEditorEvent::EntityDeselected(2),
            YoleckEditorEvent::EntitySelected(3)
        ]
    );
}

#[test]
fn set_selected_on_a_selected_entity_keeps_it() {
    let mut outcome = DirectivesOutcome::new();
    let mut passed: YoleckPassedData<u32> = YoleckPassedData::new();
    let start = vec![1, 2];
    outcome.process_directive(&mut passed, &start, YoleckDirective::set_selected(Some(2)), false);
    assert_eq!(outcome.marker_commands, vec![MarkerCommand::Remove(1)]);
    assert_eq!(outcome.events, vec![YoleckEditorEvent::EntityDeselected(1)]);
}

#[test]
fn set_selected_none_deselects_everything() {
    let mut outcome = DirectivesOutcome::new();
    let mut passed: YoleckPassedData<u32> = YoleckPassedData::new();
    let start = vec![4, 5];
    outcome.process_directive(&mut passed, &start, YoleckDirective::set_selected(None), false);
    assert_eq!(outcome.marker_commands, vec![MarkerCommand::Remove(4), MarkerCommand::Remove(5)]);
}

#[test]
fn toggle_flips_the_selection() {
    let mut outcome = DirectivesOutcome::new();
    let mut passed: YoleckPassedData<u32> = YoleckPassedData::new();
    let start = vec![1];
    outcome.process_directive(&mut passed, &start, YoleckDirective::toggle_selected(1), false);
    outcome.process_directive(&mut passed, &start, YoleckDirective::toggle_selected(2), false);
    assert_eq!(outcome.marker_commands, vec![MarkerCommand::Remove(1), MarkerCommand::Insert(2)]);
    assert_eq!(
        outcome.events,
        vec![YoleckEditorEvent::EntityDeselected(1), YoleckEditorEvent::EntitySelected(2)]
    );
}

#[test]
fn an_exclusive_system_blocks_selection_but_not_passed_data() {
    let mut outcome = DirectivesOutcome::new();
    let mut passed: YoleckPassedData<u32> = YoleckPassedData::new();
    let start = vec![1];
    outcome.process_directive(&mut passed, &start, YoleckDirective::set_selected(None), true);
    outcome.process_directive(&mut passed, &start, YoleckDirective::pass_to_entity(1, 7, 99), true);
    assert!(outcome.marker_commands.is_empty());
    assert_eq!(passed.get(1, 7), Some(&99));
}

#[test]
fn passed_data_keeps_the_latest_per_entity_and_kind() {
    let mut passed: YoleckPassedData<&str> = YoleckPassedData::new();
    passed.insert(1, 7, "first");
    passed.insert(1, 8, "other kind");
    passed.insert(1, 7, "second");
    assert_eq!(passed.get(1, 7), Some(&"second"));
    assert_eq!(passed.get(1, 8), Some(&"other kind"));
    assert_eq!(passed.get(2, 7), None);
}

#[test]
fn spawn_directive_with_selection() {
    let mut outcome = DirectivesOutcome::new();
    let mut passed: YoleckPassedData<u32> = YoleckPassedData::new();
    let start = vec![1];
    let directive: YoleckDirective<u32> = YoleckDirective::<u32>::spawn_entity(10, "Foo".to_string(), true)
        .with("Pos", JsonValue::Number(JsonNumber::PosInt(3)))
        .into_directive();
    let request = outcome
        .process_directive(&mut passed, &start, directive, false)
        .unwrap();
    assert_eq!(request.level, 10);
    assert!(request.select_created_entity);
    assert_eq!(request.entry.header.entity_type, "Foo");
    assert_eq!(request.entry.header.name, "");
    assert_eq!(
        request.entry.data,
        JsonValue::Object(vec![("Pos".to_string(), JsonValue::Number(JsonNumber::PosInt(3)))])
    );
    outcome.record_spawn(&start, 20, true);
    assert!(outcome.level_needs_saving);
    assert!(outcome.entity_created_and_selected);
    assert_eq!(
        outcome.events,
        vec![YoleckEditorEvent::EntitySelected(20), YoleckEditorEvent::EntityDeselected(1)]
    );
    assert_eq!(outcome.marker_commands, vec![MarkerCommand::Insert(20), MarkerCommand::Remove(1)]);
}

#[test]
fn spawning_without_selection_only_needs_saving() {
    let mut outcome = DirectivesOutcome::new();
    outcome.record_spawn(&vec![1], 20, false);
    assert!(outcome.level_needs_saving);
    assert!(!outcome.entity_created_and_selected);
    assert!(outcome.events.is_empty());
}

#[test]
fn spawn_is_blocked_by_an_exclusive_system() {
    let mut outcome = DirectivesOutcome::new();
    let mut passed: YoleckPassedData<u32> = YoleckPassedData::new();
    let directive: YoleckDirective<u32> =
        YoleckDirective::<u32>::spawn_entity(10, "Foo".to_string(), true).into_directive();
    assert!(outcome.process_directive(&mut passed, &vec![], directive, true).is_none());
}

#[test]
fn captions() {
    assert_eq!(format_caption("3v1", &managed("Foo", "")), "Foo 3v1");
    assert_eq!(format_caption("3v1", &managed("Foo", "door")), "door (Foo 3v1)");
}

#[test]
fn text_search() {
    assert!(contains_text("hello world", "lo w"));
    assert!(contains_text("hello", ""));
    assert!(contains_text("", ""));
    assert!(!contains_text("hello", "world"));
    assert!(!contains_text("he", "hello"));
    assert!(contains_text("abab", "bab"));
}

#[test]
fn selection_filter() {
    let mut filter = EntitySelectionFilter::new();
    assert!(filter.passes("Foo", "anything"));
    filter.set_type_shown("Bar", true);
    assert!(filter.shows_type("Bar"));
    assert!(!filter.passes("Foo", "x"));
    assert!(filter.passes("Bar", "x"));
    filter.name = "do".to_string();
    assert!(filter.passes("Bar", "door"));
    assert!(!filter.passes("Bar", "wall"));
    filter.set_type_shown("Bar", false);
    assert!(!filter.shows_type("Bar"));
    assert!(filter.passes("Foo", "door"));
}

#[test]
fn clicking_in_the_entity_list() {
    assert!(matches!(
        selection_click_directive::<u32>(5, false, true),
        YoleckDirective::ChangeSelectedStatus { entity: 5, force_to: None }
    ));
    assert!(matches!(selection_click_directive::<u32>(5, true, false), YoleckDirective::SetSelected(None)));
    assert!(matches!(
        selection_click_directive::<u32>(5, false, false),
        YoleckDirective::SetSelected(Some(5))
    ));
}

#[test]
fn new_entity_section() {
    assert!(entity_sections_shown(false, YoleckEditorState::EditorActive));
    assert!(!entity_sections_shown(true, YoleckEditorState::EditorActive));
    assert!(!entity_sections_shown(false, YoleckEditorState::GameActive));
    let yoleck = YoleckState::new(42);
    match new_entity_directive::<u32>(&yoleck, "Foo") {
        YoleckDirective::SpawnEntity { level, entity_type, data, select_created_entity } => {
            assert_eq!(level, 42);
            assert_eq!(entity_type, "Foo");
            assert_eq!(data, JsonValue::Object(vec![]));
            assert!(select_created_entity);
        }
        _ => panic!("expected a spawn directive"),
    }
}

#[test]
fn deleting_the_edited_entity() {
    let mut yoleck = YoleckState::new(1);
    assert_eq!(delete_edited_entity(&mut yoleck, 9), YoleckEditorEvent::EntityDeselected(9));
    assert!(yoleck.level_needs_saving);
    assert_eq!(yoleck.level_being_edited, 1);
}

#[test]
fn registered_type_is_found_by_name() {
    let mut specs = YoleckEntityConstructionSpecs::new();
    specs.add_yoleck_entity_type(YoleckEntityType::new("Foo".to_string()).with("Pos".to_string()));
    assert!(specs.get_entity_type_info("Foo").is_some());
    assert!(specs.get_entity_type_info("Bar").is_none());
}
