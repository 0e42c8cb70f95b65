use bevy_yoleck::editor::YoleckEditorEvent;
use bevy_yoleck::entity_management::{YoleckEntryHeader, YoleckRawEntry};
use bevy_yoleck::json::JsonValue;
use bevy_yoleck::tools_2d::{topmost_sprite_step, yoleck_clicks_on_objects, YoleckClicksOnObjectsState};
use bevy_yoleck::vpeol::{
    clickable_children, click_frame, click_target_label_text, dragged_entity, handle_camera_clicks, resolve_root,
    vpeol_read_click_on_entity, CameraClickInput, ClickFrame, ClickTargetLabel, DragGeometry,
    MouseButtonOp, VpeolCameraState, VpeolClickAction, VpeolClicksOnObjectsState,
};
use bevy_yoleck::vpeol_2d::{handle_delete_entity_key, paste_entities, shortcut_fires};
use bevy_yoleck::YoleckState;

fn input(entity: Option<u64>, selected: bool) -> CameraClickInput<(f32, f32), (f32, f32)> {
    CameraClickInput {
        shift_held: false,
        entity_under_cursor: entity,
        under_cursor_selected: selected,
        knob_pointed: None,
        knob_drag: DragGeometry::NoTransform,
        entity_drag: DragGeometry::Found((1.0, 2.0)),
        cursor_moved: false,
        moved_drag: DragGeometry::NoIntersection,
    }
}

/// Whether a point on screen lies in a rectangle given by its two corners.
fn in_rect(min: (f32, f32), max: (f32, f32), point: (f32, f32)) -> bool {
    min.0 <= point.0 && point.0 <= max.0 && min.1 <= point.1 && point.1 <= max.1
}

fn is_set_selected(a: &VpeolClickAction<(f32, f32)>, e: Option<u64>) -> bool {
    matches!(a, VpeolClickAction::SetSelected(x) if *x == e)
}

#[test]
fn a_press_over_the_editor_ui_is_ignored() {
    assert_eq!(click_frame(true, false, true, true, true), ClickFrame::Ignore);
    assert_eq!(click_frame(true, false, true, false, true), ClickFrame::Handle(MouseButtonOp::JustPressed));
    assert_eq!(click_frame(false, true, false, true, true), ClickFrame::Handle(MouseButtonOp::JustReleased));
    assert_eq!(click_frame(false, false, true, false, true), ClickFrame::Handle(MouseButtonOp::BeingPressed));
    assert_eq!(click_frame(false, false, false, false, true), ClickFrame::ResetAll);
}

#[test]
fn clicking_outside_the_editor_viewport_does_not_change_selection() {
    let cursor_in_viewport = in_rect((300.0, 40.0), (1000.0, 700.0), (1100.0, 300.0));
    assert!(!cursor_in_viewport);
    let frame = click_frame(true, false, true, false, cursor_in_viewport);
    assert_eq!(frame, ClickFrame::Ignore);
    // Inside the viewport, the same press on nothing would deselect.
    assert!(in_rect((300.0, 40.0), (1000.0, 700.0), (500.0, 300.0)));
    assert_eq!(click_frame(true, false, true, false, true), ClickFrame::Handle(MouseButtonOp::JustPressed));
}

#[test]
fn pressing_on_an_unselected_entity_selects_and_drags_it() {
    let mut state = VpeolClicksOnObjectsState::Empty;
    let actions = handle_camera_clicks(MouseButtonOp::JustPressed, &mut state, input(Some(3), false));
    assert_eq!(actions.len(), 1);
    assert!(is_set_selected(&actions[0], Some(3)));
    assert_eq!(dragged_entity(&state), Some(3));
    let release = handle_camera_clicks(MouseButtonOp::JustReleased, &mut state, input(None, false));
    assert!(release.is_empty());
}

#[test]
fn pressing_on_a_selected_entity_selects_it_alone_on_release() {
    let mut state = VpeolClicksOnObjectsState::Empty;
    let actions = handle_camera_clicks(MouseButtonOp::JustPressed, &mut state, input(Some(3), true));
    assert!(actions.is_empty());
    let release = handle_camera_clicks(MouseButtonOp::JustReleased, &mut state, input(None, false));
    assert!(is_set_selected(&release[0], Some(3)));
    assert_eq!(dragged_entity(&state), None);
}

#[test]
fn pressing_on_nothing_deselects() {
    let mut state = VpeolClicksOnObjectsState::Empty;
    let actions = handle_camera_clicks(MouseButtonOp::JustPressed, &mut state, input(None, false));
    assert!(is_set_selected(&actions[0], None));
}

#[test]
fn shift_toggles() {
    let mut state = VpeolClicksOnObjectsState::Empty;
    let mut i = input(Some(8), true);
    i.shift_held = true;
    let actions = handle_camera_clicks(MouseButtonOp::JustPressed, &mut state, i);
    assert!(matches!(actions[0], VpeolClickAction::ToggleSelected(8)));
    assert_eq!(dragged_entity(&state), None);
}

#[test]
fn knobs_are_clicked_and_dragged() {
    let mut state = VpeolClicksOnObjectsState::Empty;
    let mut i = input(Some(8), false);
    i.knob_pointed = Some(50);
    i.knob_drag = DragGeometry::Found((0.0, 0.0));
    let actions = handle_camera_clicks(MouseButtonOp::JustPressed, &mut state, i);
    assert!(matches!(actions[0], VpeolClickAction::KnobClicked(50)));
    assert_eq!(dragged_entity(&state), Some(50));
    let mut m = input(None, false);
    m.cursor_moved = true;
    m.moved_drag = DragGeometry::Found(((5.0, 5.0), (7.0, 8.0)));
    let moved = handle_camera_clicks(MouseButtonOp::BeingPressed, &mut state, m);
    assert!(matches!(moved[0], VpeolClickAction::DragTo(50, (x, y)) if x == 7.0 && y == 8.0));
}

#[test]
fn camera_pointing() {
    let mut camera: VpeolCameraState<u8> = VpeolCameraState::prepare(&vec![10, 11], Some(10));
    assert_eq!(camera.entities_of_interest.len(), 2);
    camera.consider(5, false, 1);
    camera.consider(10, false, 2);
    camera.consider(6, true, 3);
    assert_eq!(camera.entity_under_cursor, Some((6, 3)));
    assert_eq!(camera.pointing_at_entity(10), Some(2));
    assert_eq!(camera.pointing_at_entity(5), None);
    assert_eq!(camera.pointing_at_entity(6), Some(3));
    assert_eq!(camera.first_pointed_knob(&vec![11, 10]), Some((10, 2)));
}

#[test]
fn the_first_deepest_entity_under_the_cursor_wins() {
    let hits: Vec<(u64, f32)> = vec![(1, 1.0), (2, 3.0), (3, 3.0), (4, 2.0)];
    let mut camera: VpeolCameraState<f32> = VpeolCameraState::prepare(&vec![], None);
    for (entity, depth) in hits {
        let nearer = match camera.entity_under_cursor {
            Some((_, current)) => current < depth,
            None => true,
        };
        camera.consider(entity, nearer, depth);
    }
    assert_eq!(camera.entity_under_cursor, Some((2, 3.0)));
}

#[test]
fn the_last_highest_sprite_under_the_cursor_is_picked() {
    let hits: Vec<(u64, f32)> = vec![(1, 0.5), (2, 2.0), (3, 1.0), (4, 2.0), (5, -1.0)];
    let mut topmost: Option<(u64, f32)> = None;
    for hit in hits {
        let shallower = match topmost {
            Some((_, z)) => hit.1 < z,
            None => false,
        };
        topmost = topmost_sprite_step(topmost, hit, shallower);
    }
    assert_eq!(topmost, Some((4, 2.0)));
}

#[test]
fn root_resolution() {
    assert_eq!(resolve_root(1, Some(9), false), Some(9));
    assert_eq!(resolve_root(1, None, true), Some(1));
    assert_eq!(resolve_root(1, None, false), None);
}

#[test]
fn picking_an_entity_by_clicking() {
    let mut candidate = None;
    let (picked, label) = vpeol_read_click_on_entity(&mut candidate, Some(4), Some("Foo"), true, true, false);
    assert_eq!(picked, None);
    assert_eq!(click_target_label_text(&label, "4v1"), "Targeting 4v1 (Foo)");
    let (picked, _) = vpeol_read_click_on_entity(&mut candidate, Some(4), Some("Foo"), true, false, true);
    assert_eq!(picked, Some(4));
    let (picked, label) = vpeol_read_click_on_entity(&mut candidate, Some(4), Some("Foo"), false, true, false);
    assert_eq!(picked, None);
    assert_eq!(click_target_label_text(&label, "4v1"), "Invalid Target (Foo)");
    let (_, label) = vpeol_read_click_on_entity(&mut candidate, None, None, true, true, false);
    assert!(matches!(label, ClickTargetLabel::NoTarget));
    assert_eq!(click_target_label_text(&label, ""), "No Target");
}

#[test]
fn clicks_on_sprites() {
    let mut state = YoleckClicksOnObjectsState::Empty;
    let actions = yoleck_clicks_on_objects(
        MouseButtonOp::JustPressed,
        &mut state,
        None,
        Some((7, 0.5f32)),
        false,
        (0.0f32, 0.0f32),
    );
    assert!(matches!(actions[0], VpeolClickAction::SetSelected(Some(7))));
    let moved = yoleck_clicks_on_objects(MouseButtonOp::BeingPressed, &mut state, None, None, true, (1.0, 3.0));
    assert!(matches!(moved[0], VpeolClickAction::DragTo(7, d) if d == 3.0));
}

#[test]
fn keyboard_shortcuts() {
    assert!(shortcut_fires(false, true, true));
    assert!(!shortcut_fires(true, true, true));
    let mut yoleck = YoleckState::new(1);
    let events = handle_delete_entity_key(&mut yoleck, &vec![3, 4]);
    assert_eq!(
        events,
        vec![YoleckEditorEvent::EntityDeselected(3), YoleckEditorEvent::EntityDeselected(4)]
    );
    assert!(yoleck.level_needs_saving);
    let mut untouched = YoleckState::new(1);
    assert!(handle_delete_entity_key(&mut untouched, &vec![]).is_empty());
    assert!(!untouched.level_needs_saving);
}

#[test]
fn pasting_entities() {
    let mut yoleck = YoleckState::new(5);
    assert!(paste_entities(&mut yoleck, &vec![1], vec![]).is_none());
    assert!(!yoleck.level_needs_saving);
    let entry = YoleckRawEntry {
        header: YoleckEntryHeader { entity_type: "Foo".into(), name: "n".into(), uuid: None },
        data: JsonValue::Null,
    };
    let (events, spawns) = paste_entities(&mut yoleck, &vec![1], vec![entry]).unwrap();
    assert_eq!(events, vec![YoleckEditorEvent::EntityDeselected(1)]);
    assert_eq!(spawns.len(), 1);
    assert_eq!(spawns[0].0.header.name, "n");
    assert_eq!(spawns[0].1.level, 5);
    assert!(yoleck.level_needs_saving);
}

#[test]
fn clickable_children_are_found_depth_first() {
    let children = vec![1, 2];
    let children_of = vec![(1, vec![3, 4]), (4, vec![5]), (2, vec![])];
    let should_add = vec![5, 3, 2];
    assert_eq!(clickable_children(&children, &children_of, &should_add), vec![2, 5, 3]);
    assert!(clickable_children(&vec![], &children_of, &should_add).is_empty());
}
