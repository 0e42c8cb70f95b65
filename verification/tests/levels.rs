use bevy_yoleck::editor::YoleckEditorState;
use bevy_yoleck::entity_management::{YoleckEntryHeader, YoleckRawEntry, YoleckRawLevel};
use bevy_yoleck::json::{JsonNumber, JsonValue};
use bevy_yoleck::level_files_manager::{
    level_files_list_shown, level_files_section_shown, move_level, LevelFilesAction,
    LevelFilesManager, SelectedLevelFile,
};
use bevy_yoleck::level_index::{
    level_file_name, reconcile_index, str_less, YoleckEditableLevels, YoleckLevelIndex,
    YoleckLevelIndexEntry,
};
use bevy_yoleck::YoleckState;

fn entries(names: &[&str]) -> Vec<YoleckLevelIndexEntry> {
    names.iter().map(|n| YoleckLevelIndexEntry { filename: n.to_string() }).collect()
}

fn names_of(entries: &[YoleckLevelIndexEntry]) -> Vec<String> {
    entries.iter().map(|e| e.filename.clone()).collect()
}

fn strings(names: &[&str]) -> Vec<String> {
    names.iter().map(|n| n.to_string()).collect()
}

fn level() -> YoleckRawLevel {
    YoleckRawLevel::new(
        3,
        vec![YoleckRawEntry {
            header: YoleckEntryHeader { entity_type: "Foo".into(), name: "".into(), uuid: None },
            data: JsonValue::Object(vec![("x".into(), JsonValue::Number(JsonNumber::PosInt(1)))]),
        }],
    )
}

#[test]
fn level_file_names() {
    assert!(level_file_name("a.yol"));
    assert!(level_file_name("level 1.yol"));
    assert!(!level_file_name(".yol"));
    assert!(!level_file_name("a.yoli"));
    assert!(!level_file_name("index.yoli"));
    assert!(!level_file_name("a.txt"));
    assert!(level_file_name("..yol"));
}

#[test]
fn text_order() {
    assert!(str_less("a", "b"));
    assert!(str_less("a", "ab"));
    assert!(!str_less("ab", "a"));
    assert!(!str_less("a", "a"));
    assert!(str_less("B", "a"));
}

#[test]
fn editable_levels_are_sorted_and_unique() {
    let mut levels = YoleckEditableLevels::new();
    levels.update_from_directory(&strings(&["c.yol", "index.yoli", "a.yol", "b.yol", "a.yol"]));
    assert_eq!(levels.names(), &strings(&["a.yol", "b.yol", "c.yol"]));
}

#[test]
fn reconciling_keeps_the_order_and_appends_new_files() {
    let index = entries(&["b.yol", "gone.yol", "a.yol"]);
    let names = strings(&["a.yol", "b.yol", "c.yol"]);
    let r = reconcile_index(&index, &names);
    assert_eq!(names_of(&r), strings(&["b.yol", "a.yol", "c.yol"]));
    let again = reconcile_index(&r, &names);
    assert_eq!(names_of(&again), names_of(&r));
}

#[test]
fn level_index() {
    let index = YoleckLevelIndex::new(entries(&["a.yol"]));
    assert_eq!(index.header().format_version(), 1);
    assert_eq!(index.entries()[0].filename, "a.yol");
}

#[test]
fn moving_levels() {
    let mut files = entries(&["a", "b", "c"]);
    let r = move_level(&mut files, 0, true);
    assert!(r.is_empty());
    let r = move_level(&mut files, 1, true);
    assert!(matches!(r[0], LevelFilesAction::SaveIndex));
    assert_eq!(names_of(&files), strings(&["b", "a", "c"]));
    move_level(&mut files, 1, false);
    assert_eq!(names_of(&files), strings(&["b", "c", "a"]));
    assert!(move_level(&mut files, 2, false).is_empty());
}

#[test]
fn playtest_round_trip() {
    let mut manager = LevelFilesManager::new();
    let actions = manager.start_playtest(level());
    assert_eq!(actions.len(), 3);
    assert!(matches!(actions[0], LevelFilesAction::ClearLevel));
    assert!(matches!(actions[1], LevelFilesAction::SetEditorState(YoleckEditorState::GameActive)));
    match &actions[2] {
        LevelFilesAction::LoadLevel { level, playtest } => {
            assert!(*playtest);
            assert_eq!(level.header().app_format_version, 3);
            assert_eq!(level.entries()[0].header.entity_type, "Foo");
        }
        _ => panic!("expected a level load"),
    }
    assert!(manager.start_playtest(level()).is_empty());
    let restart = manager.restart_playtest();
    assert_eq!(restart.len(), 2);
    let finish = manager.finish_playtest();
    assert!(matches!(finish[1], LevelFilesAction::SetEditorState(YoleckEditorState::EditorActive)));
    match &finish[2] {
        LevelFilesAction::LoadLevel { level, playtest } => {
            assert!(!*playtest);
            assert_eq!(
                level.entries()[0].data,
                JsonValue::Object(vec![("x".into(), JsonValue::Number(JsonNumber::PosInt(1)))])
            );
        }
        _ => panic!("expected a level load"),
    }
    assert!(manager.level_being_playtested.is_none());
    assert!(manager.finish_playtest().is_empty());
}

#[test]
fn opening_saving_and_reverting_files() {
    let mut manager = LevelFilesManager::new();
    let mut yoleck = YoleckState::new(1);
    let actions = manager.file_clicked(&yoleck, "a.yol");
    assert!(matches!(&actions[1], LevelFilesAction::LoadLevelFile(f) if f == "a.yol"));
    assert!(manager.is_selected("a.yol"));
    assert!(manager.file_clicked(&yoleck, "a.yol").is_empty());
    yoleck.level_needs_saving = true;
    assert!(manager.file_clicked(&yoleck, "b.yol").is_empty());
    let save = manager.save_clicked(&mut yoleck, "a.yol");
    assert!(matches!(&save[0], LevelFilesAction::SaveLevelFile(f) if f == "a.yol"));
    assert!(!yoleck.level_needs_saving);
    assert!(manager.save_clicked(&mut yoleck, "a.yol").is_empty());
    yoleck.level_needs_saving = true;
    let revert = manager.revert_clicked(&mut yoleck, "a.yol");
    assert_eq!(revert.len(), 2);
    assert!(!yoleck.level_needs_saving);
    let new_level = manager.new_level_clicked(&yoleck);
    assert!(matches!(new_level[1], LevelFilesAction::StartNewLevel));
    assert!(matches!(&manager.selected_level_file, SelectedLevelFile::Unsaved(n) if n.is_empty()));
}

#[test]
fn creating_a_level_file() {
    let mut manager = LevelFilesManager::new();
    let mut yoleck = YoleckState::new(1);
    assert_eq!(manager.create_clicked(), None);
    manager.selected_level_file = SelectedLevelFile::Unsaved("forest".into());
    assert_eq!(manager.create_clicked(), Some("forest.yol".to_string()));
    assert_eq!(manager.create_clicked(), Some("forest.yol".to_string()));
    yoleck.level_needs_saving = true;
    assert_eq!(manager.wipe_clicked(&mut yoleck).len(), 1);
    assert!(!yoleck.level_needs_saving);
    assert!(manager.take_listing_request());
    assert!(!manager.take_listing_request());
    manager.level_file_created(&mut yoleck, "forest.yol");
    assert!(manager.is_selected("forest.yol"));
    assert!(manager.take_listing_request());
    manager.directory_edited();
    assert!(manager.should_list_files);
}

#[test]
fn panel_visibility() {
    assert!(level_files_section_shown(false));
    assert!(!level_files_section_shown(true));
    assert!(level_files_list_shown(YoleckEditorState::EditorActive));
    assert!(!level_files_list_shown(YoleckEditorState::GameActive));
}
