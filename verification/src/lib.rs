//! Your Own Level Editor Creation Kit: the data model and the editing logic of a level editor
//! that a game carries within itself.
//!
//! Levels are stored as JSON `.yol` files holding a header, the level data and the list of
//! entities; an `index.yoli` file lists the levels available to the game.
use vstd::prelude::*;

pub mod auto_edit;
pub mod console;
pub mod editing;
pub mod editor;
pub mod entity_management;
pub mod entity_upgrading;
pub mod entity_ref;
pub mod entity_uuid;
pub mod exclusive_systems;
pub mod json;
pub mod knobs;
pub mod level_files_manager;
pub mod level_files_upgrading;
pub mod level_index;
pub mod populating;
pub mod specs_registration;
pub mod tools_2d;
pub mod vpeol;
pub mod vpeol_2d;

use crate::json::{JsonModel, JsonValue};

verus! {

/// How Yoleck tracks the synchronization of an entity's data with its Bevy components.
#[derive(Debug, Clone, Copy, PartialEq, Eq, Structural)]
pub enum YoleckEntityLifecycleStatus {
    Synchronized,
    JustCreated,
    JustChanged,
}

/// Describes how Yoleck manages an entity under its control.
pub struct YoleckManaged {
    /// A name to display near the entity in the entities list.
    ///
    /// This is for level editors' convenience only - it will not be used in the games.
    pub name: String,
    /// The type of the Yoleck entity, as registered with `add_yoleck_entity_type`.
    ///
    /// This defines the Yoleck components that can be edited for the entity.
    pub entity_type: String,
    pub(crate) lifecycle_status: YoleckEntityLifecycleStatus,
    /// The serialized data of each component the entity holds, by component key.
    pub(crate) components_data: Vec<(String, JsonValue)>,
}

/// The model of a managed entity.
pub struct YoleckManagedView {
    pub name: Seq<char>,
    pub entity_type: Seq<char>,
    pub lifecycle_status: YoleckEntityLifecycleStatus,
    pub components_data: Seq<(Seq<char>, JsonModel)>,
}

impl View for YoleckManaged {
    type V = YoleckManagedView;

    closed spec fn view(&self) -> YoleckManagedView {
        YoleckManagedView {
            name: self.name@,
            entity_type: self.entity_type@,
            lifecycle_status: self.lifecycle_status,
            components_data: crate::json::members_model(self.components_data),
        }
    }
}

/// A marker for entities that belong to the Yoleck level and should be despawned with it.
#[derive(Debug, Clone, Copy, PartialEq, Eq, Structural)]
pub struct YoleckBelongsToLevel {
    /// The entity which was used to load the level that this entity belongs to.
    pub level: u64,
}

/// Fields of the Yoleck editor.
#[derive(Debug, Clone, Copy, PartialEq, Eq, Structural)]
pub struct YoleckState {
    /// The entity that loaded the level being edited.
    pub level_being_edited: u64,
    /// Whether the level was changed since it was last saved or loaded.
    pub level_needs_saving: bool,
}

impl YoleckState {
    /// The editor's state when it starts editing the level loaded by `level_being_edited`, with
    /// nothing to save yet.
    pub fn new(level_being_edited: u64) -> (r: Self)
        ensures
            r.level_being_edited == level_being_edited,
            !r.level_needs_saving,
    {
        YoleckState { level_being_edited, level_needs_saving: false }
    }
}

impl YoleckManaged {
    /// The stored data of a component.
    pub fn component_data(&self, key: &str) -> (r: Option<&JsonValue>)
        ensures
            match r {
                Some(v) => crate::json::model_lookup(self@.components_data, key@) == Some(v@),
                None => crate::json::model_lookup(self@.components_data, key@) is None,
            },
    {
        proof {
            crate::json::lemma_members_model(self.components_data);
            crate::json::lemma_first_key_index(self@.components_data, key@);
        }
        match crate::json::find_key(&self.components_data, key) {
            Some(i) => Some(&self.components_data[i].1),
            None => None,
        }
    }

    /// Store the data of a component that was just built from the level file.
    pub fn init_component_data(&mut self, key: &str, data: JsonValue)
        ensures
            final(self)@ == (YoleckManagedView {
                components_data: crate::json::model_set_key(
                    old(self)@.components_data,
                    key@,
                    data@,
                ),
                ..old(self)@
            }),
    {
        crate::json::set_key(&mut self.components_data, key, data);
    }

    /// Bring the stored data of a component up to date with the component itself. `data` is the
    /// component's data now, and `same_as_stored` whether the component equals the one stored
    /// (meaningful only when one is stored). A new or different component marks the entity as
    /// changed.
    pub fn update_component_data(&mut self, key: &str, data: JsonValue, same_as_stored: bool)
        ensures
            ({
                let stored = crate::json::model_lookup(old(self)@.components_data, key@);
                if stored is None || !same_as_stored {
                    final(self)@ == YoleckManagedView {
                        components_data: crate::json::model_set_key(
                            old(self)@.components_data,
                            key@,
                            data@,
                        ),
                        lifecycle_status: YoleckEntityLifecycleStatus::JustChanged,
                        ..old(self)@
                    }
                } else {
                    final(self)@ == old(self)@
                }
            }),
    {
        proof {
            crate::json::lemma_members_model(self.components_data);
            crate::json::lemma_first_key_index(self@.components_data, key@);
        }
        let stored = crate::json::find_key(&self.components_data, key);
        if stored.is_none() || !same_as_stored {
            crate::json::set_key(&mut self.components_data, key, data);
            self.lifecycle_status = YoleckEntityLifecycleStatus::JustChanged;
        }
    }
}

} // verus!
