use bevy_yoleck::entity_management::{YoleckEntryHeader, YoleckRawEntry, YoleckRawLevel};
use bevy_yoleck::entity_upgrading::{
    process_loading_command, upgrade_for, YoleckEntityDataUpgrade, YoleckEntityUpgrade,
    YoleckEntityUpgrading, YoleckEntityUpgradingPlugin,
};
use bevy_yoleck::exclusive_systems::{
    exclusive_system_stays_active, yoleck_exclusive_system_cancellable,
    YoleckEntityCreationExclusiveSystems, YoleckExclusiveSystemDirective,
    YoleckExclusiveSystemsQueue, YoleckQueueModifier,
};
use bevy_yoleck::json::{JsonModel, JsonNumber, JsonValue};
use bevy_yoleck::populating::{
    marked_children_by_parent, MarkerGenerator, PopulateReason, YoleckMarking,
    YoleckPopulateContext,
};

struct Tag(u64);

impl YoleckEntityDataUpgrade for Tag {
    // The model of the upgrade exists for proofs only; it is never called.
    fn spec_upgrade_data(&self, _: JsonModel) -> JsonModel {
        unreachable!()
    }

    fn upgrade_data(&self, data: &mut JsonValue) {
        if let JsonValue::Object(members) = data {
            members.push(("tag".to_string(), JsonValue::Number(JsonNumber::PosInt(self.0))));
        }
    }
}

struct Wrap;

impl YoleckEntityUpgrade for Wrap {
    // The model of the upgrade exists for proofs only; it is never called.
    fn spec_upgrade(&self, _: vstd::seq::Seq<char>, _: JsonModel) -> JsonModel {
        unreachable!()
    }

    fn upgrade(&self, entity_type: &str, data: &mut JsonValue) {
        let inner = std::mem::replace(data, JsonValue::Null);
        *data = JsonValue::Object(vec![(entity_type.to_string(), inner)]);
    }
}

enum Upgrade {
    Tag(bevy_yoleck::entity_upgrading::YoleckEntityUpgradeFor<Tag>),
    Wrap,
}

impl YoleckEntityUpgrade for Upgrade {
    // The model of the upgrade exists for proofs only; it is never called.
    fn spec_upgrade(&self, _: vstd::seq::Seq<char>, _: JsonModel) -> JsonModel {
        unreachable!()
    }

    fn upgrade(&self, entity_type: &str, data: &mut JsonValue) {
        match self {
            Upgrade::Tag(t) => t.upgrade(entity_type, data),
            Upgrade::Wrap => Wrap.upgrade(entity_type, data),
        }
    }
}

fn level(app_format_version: usize) -> YoleckRawLevel {
    YoleckRawLevel::new(
        app_format_version,
        vec![
            YoleckRawEntry {
                header: YoleckEntryHeader { entity_type: "Foo".into(), name: "".into(), uuid: None },
                data: JsonValue::Object(vec![]),
            },
            YoleckRawEntry {
                header: YoleckEntryHeader { entity_type: "Bar".into(), name: "b".into(), uuid: Some(1) },
                data: JsonValue::Object(vec![]),
            },
        ],
    )
}

#[test]
fn upgrades_run_in_version_order_from_the_level_version() {
    let mut upgrading = YoleckEntityUpgrading::new(5);
    upgrading.add_yoleck_entity_upgrade(5, Upgrade::Wrap);
    upgrading.add_yoleck_entity_upgrade(3, Upgrade::Tag(upgrade_for("Foo", Tag(3))));
    upgrading.add_yoleck_entity_upgrade(2, Upgrade::Tag(upgrade_for("Foo", Tag(2))));
    assert_eq!(upgrading.upgrade_plan(2), vec![3, 5]);
    assert_eq!(upgrading.upgrade_plan(0), vec![2, 3, 5]);
    let mut l = level(2);
    upgrading.upgrade_raw_level_file(&mut l);
    assert_eq!(l.header().app_format_version, 5);
    let tag3 = ("tag".to_string(), JsonValue::Number(JsonNumber::PosInt(3)));
    assert_eq!(
        l.entries()[0].data,
        JsonValue::Object(vec![("Foo".to_string(), JsonValue::Object(vec![tag3]))])
    );
    assert_eq!(
        l.entries()[1].data,
        JsonValue::Object(vec![("Bar".to_string(), JsonValue::Object(vec![]))])
    );
    assert_eq!(l.entries()[1].header.name, "b");
    let before = l.entries()[0].data.deep_clone();
    let before_other = l.entries()[1].data.deep_clone();
    upgrading.upgrade_raw_level_file(&mut l);
    assert_eq!(l.entries()[0].data, before);
    assert_eq!(l.entries()[1].data, before_other);
    assert_eq!(l.header().app_format_version, 5);
}

#[test]
fn loading_a_level_upgrades_it_and_spawns_its_entries() {
    let mut upgrading: YoleckEntityUpgrading<Upgrade> =
        YoleckEntityUpgradingPlugin { app_format_version: 1 }.build();
    assert_eq!(upgrading.app_format_version(), 1);
    upgrading.add_yoleck_entity_upgrade(1, Upgrade::Wrap);
    let mut l = level(0);
    let spawns = process_loading_command(&mut l, Some(&upgrading), 77);
    assert_eq!(spawns.len(), 2);
    assert_eq!(spawns[0].1.level, 77);
    assert_eq!(l.header().app_format_version, 1);
    assert_eq!(
        spawns[0].0.data,
        JsonValue::Object(vec![("Foo".to_string(), JsonValue::Object(vec![]))])
    );
    let mut unversioned = level(0);
    let spawns = process_loading_command::<Upgrade>(&mut unversioned, None, 78);
    assert_eq!(spawns[1].0.header.entity_type, "Bar");
    assert_eq!(unversioned.header().app_format_version, 0);
}

#[test]
fn exclusive_systems_queue_order() {
    let mut queue = YoleckExclusiveSystemsQueue::new();
    queue.push_back("b");
    queue.push_front("a");
    queue.push_back("c");
    assert_eq!(queue.len(), 3);
    assert_eq!(queue.pop_front(), Some("a"));
    assert_eq!(queue.pop_front(), Some("b"));
    queue.clear();
    assert_eq!(queue.pop_front(), None);
}

#[test]
fn cancelling_exclusive_systems() {
    let finished = YoleckExclusiveSystemDirective::Finished;
    let listening = YoleckExclusiveSystemDirective::Listening;
    assert_eq!(yoleck_exclusive_system_cancellable(finished, false, false), finished);
    assert_eq!(yoleck_exclusive_system_cancellable(listening, false, false), listening);
    assert_eq!(yoleck_exclusive_system_cancellable(listening, true, false), finished);
    assert_eq!(yoleck_exclusive_system_cancellable(listening, false, true), finished);
    assert!(exclusive_system_stays_active(false, listening));
    assert!(exclusive_system_stays_active(true, finished));
    assert!(!exclusive_system_stays_active(false, finished));
}

struct Push(&'static str);

impl YoleckQueueModifier<&'static str> for Push {
    // The model of the change exists for proofs only; it is never called.
    fn spec_modify(&self, _: vstd::seq::Seq<&'static str>) -> vstd::seq::Seq<&'static str> {
        unreachable!()
    }

    fn modify(&self, queue: &mut YoleckExclusiveSystemsQueue<&'static str>) {
        queue.push_back(self.0);
    }
}

#[test]
fn entity_creation_queue() {
    let mut creation = YoleckEntityCreationExclusiveSystems::new();
    creation.on_entity_creation(Push("pick"));
    creation.on_entity_creation(Push("place"));
    let mut queue = creation.create_queue();
    assert_eq!(queue.pop_front(), Some("pick"));
    assert_eq!(queue.pop_front(), Some("place"));
}

#[test]
fn populate_contexts_and_markers() {
    assert!(YoleckPopulateContext::new(PopulateReason::EditorInit).is_in_editor());
    assert!(!YoleckPopulateContext::new(PopulateReason::RealGame).is_in_editor());
    assert!(!YoleckPopulateContext::new(PopulateReason::EditorUpdate).is_first_time());
    let mut generator = MarkerGenerator::new();
    let a = generator.next_marker();
    let b = generator.next_marker();
    assert_ne!(a, b);
    let groups = marked_children_by_parent(a, &vec![(10, 1, a), (11, 2, b), (12, 1, a), (13, 3, a)]);
    assert_eq!(groups, vec![(1, vec![10, 12]), (3, vec![13])]);
    let marking = YoleckMarking::new(b);
    assert_eq!(marking.marker(), b);
    assert_eq!(marking.despawn_marked(&vec![(10, 1, a), (11, 2, b)]), vec![(2, vec![11])]);
}

#[test]
fn entity_creation_queue_without_modifiers_is_empty() {
    let creation: YoleckEntityCreationExclusiveSystems<Push> = YoleckEntityCreationExclusiveSystems::new();
    let mut queue = creation.create_queue();
    assert_eq!(queue.len(), 0);
    assert_eq!(queue.pop_front(), None);
}

#[test]
fn a_type_upgrade_leaves_other_types_alone() {
    let upgrade = upgrade_for("Foo", Tag(1));
    let mut data = JsonValue::Object(vec![]);
    upgrade.upgrade("Bar", &mut data);
    assert_eq!(data, JsonValue::Object(vec![]));
    upgrade.upgrade("Foo", &mut data);
    assert_eq!(
        data,
        JsonValue::Object(vec![("tag".to_string(), JsonValue::Number(JsonNumber::PosInt(1)))])
    );
}
