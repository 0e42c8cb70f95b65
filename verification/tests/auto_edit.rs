use bevy_yoleck::auto_edit::{
    apply_list_edits, asset_extensions, field_label, list_item_label, set_optional_present,
    trim_text,
};
use bevy_yoleck::exclusive_systems::{
    active_exclusive_system_status, regular_edit_systems_run, ActiveExclusiveSystemStatus,
    YoleckExclusiveSystemDirective,
};

#[test]
fn list_labels() {
    assert_eq!(list_item_label(0), "[0]");
    assert_eq!(list_item_label(7), "[7]");
    assert_eq!(list_item_label(42), "[42]");
    assert_eq!(list_item_label(1090), "[1090]");
}

#[test]
fn optional_fields() {
    let mut v: Option<u32> = None;
    set_optional_present(&mut v, true, 0);
    assert_eq!(v, Some(0));
    set_optional_present(&mut v, false, 0);
    assert_eq!(v, None);
}

#[test]
fn list_edits() {
    let mut v = vec![1, 2, 3];
    apply_list_edits(&mut v, Some(1), None);
    assert_eq!(v, vec![1, 3]);
    apply_list_edits(&mut v, None, Some(0));
    assert_eq!(v, vec![1, 3, 0]);
    apply_list_edits(&mut v, Some(0), Some(9));
    assert_eq!(v, vec![3, 0, 9]);
}

#[test]
fn exclusive_system_frames() {
    assert_eq!(active_exclusive_system_status(None), ActiveExclusiveSystemStatus::DidNotRun);
    assert_eq!(
        active_exclusive_system_status(Some(YoleckExclusiveSystemDirective::Listening)),
        ActiveExclusiveSystemStatus::StillRunningSame
    );
    assert_eq!(
        active_exclusive_system_status(Some(YoleckExclusiveSystemDirective::Finished)),
        ActiveExclusiveSystemStatus::JustFinishedRunning
    );
    assert!(regular_edit_systems_run(ActiveExclusiveSystemStatus::DidNotRun, true));
    assert!(!regular_edit_systems_run(ActiveExclusiveSystemStatus::DidNotRun, false));
    assert!(!regular_edit_systems_run(ActiveExclusiveSystemStatus::JustFinishedRunning, true));
}

#[test]
fn field_labels() {
    assert_eq!(field_label(None, "max_speed_value"), "max speed value");
    assert_eq!(field_label(None, "plain"), "plain");
    assert_eq!(field_label(Some("Speed"), "max_speed"), "Speed");
    assert_eq!(field_label(None, "_a_"), " a ");
}

#[test]
fn trimming() {
    assert_eq!(trim_text("  png \t"), "png");
    assert_eq!(trim_text("   "), "");
    assert_eq!(trim_text("a b"), "a b");
    assert_eq!(trim_text("\u{3000}x\u{a0}"), "x");
}

#[test]
fn asset_extension_lists() {
    assert_eq!(asset_extensions("png, jpg"), vec!["png".to_string(), "jpg".to_string()]);
    assert_eq!(asset_extensions("png"), vec!["png".to_string()]);
    assert_eq!(asset_extensions(""), vec!["".to_string()]);
    assert_eq!(asset_extensions("a,,b,"), vec!["a".to_string(), "".to_string(), "b".to_string(), "".to_string()]);
}
