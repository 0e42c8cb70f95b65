use std::collections::HashMap;
use vstd::prelude::*;
use vstd::string::*;

use crate::entity_management::{YoleckEntryHeader, YoleckRawEntry};
use crate::json::{members_model, model_set_key, set_key, str_equal, JsonModel, JsonValue};
use crate::specs_registration::{contains_string, strings_view};
use crate::{YoleckManaged, YoleckState};

verus! {

/// Whether or not the Yoleck editor is active.
#[derive(Debug, Clone, Copy, PartialEq, Eq, Structural)]
pub enum YoleckEditorState {
    /// Editor mode. The editor is active and can be used to edit entities.
    EditorActive,
    /// Game mode. Either the actual game or playtest from the editor mode.
    GameActive,
}

/// The game states to keep in sync with the editor: `when_editor` while editing, `when_game`
/// while playing or playtesting.
pub struct YoleckSyncWithEditorState<T> {
    pub when_editor: T,
    pub when_game: T,
}

impl<T> YoleckSyncWithEditorState<T> {
    /// The game state for `editor_state`.
    pub fn state_for(&self, editor_state: YoleckEditorState) -> (r: &T)
        ensures
            *r == match editor_state {
                YoleckEditorState::EditorActive => self.when_editor,
                YoleckEditorState::GameActive => self.when_game,
            },
    {
        match editor_state {
            YoleckEditorState::EditorActive => &self.when_editor,
            YoleckEditorState::GameActive => &self.when_game,
        }
    }
}

/// Events emitted by the Yoleck editor.
#[derive(Debug, Clone, Copy, PartialEq, Eq, Structural)]
pub enum YoleckEditorEvent {
    EntitySelected(u64),
    EntityDeselected(u64),
    EditedEntityPopulated(u64),
}

/// A change to the set of selected entities (those that carry the edit marker), applied when the
/// frame's commands are.
#[derive(Debug, Clone, Copy, PartialEq, Eq, Structural)]
pub enum MarkerCommand {
    Insert(u64),
    Remove(u64),
}

/// The selection after the commands are applied in order.
pub open spec fn apply_marker_commands(selection: Set<u64>, commands: Seq<MarkerCommand>) -> Set<u64>
    decreases commands.len(),
{
    if commands.len() == 0 {
        selection
    } else {
        let s = apply_marker_commands(selection, commands.drop_last());
        match commands.last() {
            MarkerCommand::Insert(e) => s.insert(e),
            MarkerCommand::Remove(e) => s.remove(e),
        }
    }
}

/// Event that can be sent to control Yoleck's editor. `P` is the data passed to entities.
pub enum YoleckDirective<P> {
    /// Pass data (of the kind `kind`) to an entity.
    PassToEntity(u64, u64, P),
    /// Set the entity selected in the Yoleck editor.
    SetSelected(Option<u64>),
    /// Add an entity to the selection or remove it from it.
    ChangeSelectedStatus { entity: u64, force_to: Option<bool> },
    /// Spawn a new entity with pre-populated data.
    SpawnEntity { level: u64, entity_type: String, data: JsonValue, select_created_entity: bool },
}

impl<P> YoleckDirective<P> {
    /// Pass data from an external system (usually a viewport editing overlay) to an entity.
    pub fn pass_to_entity(entity: u64, kind: u64, data: P) -> (r: Self)
        ensures
            r == YoleckDirective::PassToEntity(entity, kind, data),
    {
        YoleckDirective::PassToEntity(entity, kind, data)
    }

    /// Set the entity selected in the Yoleck editor.
    pub fn set_selected(entity: Option<u64>) -> (r: Self)
        ensures
            r == YoleckDirective::<P>::SetSelected(entity),
    {
        YoleckDirective::SetSelected(entity)
    }

    /// Add the entity to the selection, or remove it from it if it is selected.
    pub fn toggle_selected(entity: u64) -> (r: Self)
        ensures
            r == (YoleckDirective::<P>::ChangeSelectedStatus { entity, force_to: None }),
    {
        YoleckDirective::ChangeSelectedStatus { entity, force_to: None }
    }

    /// Spawn a new entity with pre-populated data.
    pub fn spawn_entity(
        level: u64,
        entity_type: String,
        select_created_entity: bool,
    ) -> (r: SpawnEntityBuilder)
        ensures
            r.level == level,
            r.entity_type@ == entity_type@,
            r.select_created_entity == select_created_entity,
            members_model(r.data) == Seq::<(Seq<char>, JsonModel)>::empty(),
    {
        let r = SpawnEntityBuilder { level, entity_type, select_created_entity, data: Vec::new() };
        proof {
            crate::json::lemma_members_model(r.data);
        }
        r
    }
}

/// Builds a [`YoleckDirective::SpawnEntity`].
pub struct SpawnEntityBuilder {
    pub level: u64,
    pub entity_type: String,
    pub select_created_entity: bool,
    /// The data of the components to override, by key.
    pub data: Vec<(String, JsonValue)>,
}

impl SpawnEntityBuilder {
    /// Override a component of the spawned entity with the given data.
    pub fn with(self, component_key: &str, component_data: JsonValue) -> (r: Self)
        ensures
            r.level == self.level,
            r.entity_type == self.entity_type,
            r.select_created_entity == self.select_created_entity,
            members_model(r.data) == model_set_key(
                members_model(self.data),
                component_key@,
                component_data@,
            ),
    {
        let mut r = self;
        set_key(&mut r.data, component_key, component_data);
        r
    }

    /// The directive that spawns the entity.
    pub fn into_directive<P>(self) -> (r: YoleckDirective<P>)
        ensures
            match r {
                YoleckDirective::SpawnEntity { level, entity_type, data, select_created_entity } => level
                    == self.level && entity_type == self.entity_type && data@ == JsonModel::Object(
                    members_model(self.data),
                ) && select_created_entity == self.select_created_entity,
                _ => false,
            },
    {
        YoleckDirective::SpawnEntity {
            level: self.level,
            entity_type: self.entity_type,
            data: JsonValue::Object(self.data),
            select_created_entity: self.select_created_entity,
        }
    }
}

/// Data sent to entities by directives during a frame, by entity and kind; for one entity and
/// kind the latest wins.
pub struct YoleckPassedData<P> {
    by_entity: HashMap<u64, HashMap<u64, P>>,
}

impl<P> View for YoleckPassedData<P> {
    type V = Map<(u64, u64), P>;

    closed spec fn view(&self) -> Map<(u64, u64), P> {
        Map::new(
            |k: (u64, u64)|
                self.by_entity@.contains_key(k.0) && self.by_entity@[k.0]@.contains_key(k.1),
            |k: (u64, u64)| self.by_entity@[k.0]@[k.1],
        )
    }
}

impl<P> YoleckPassedData<P> {
    pub fn new() -> (r: Self)
        ensures
            r@ == Map::<(u64, u64), P>::empty(),
    {
        let r = YoleckPassedData { by_entity: HashMap::new() };
        assert(r@ =~= Map::<(u64, u64), P>::empty());
        r
    }

    /// Record data passed to `entity`.
    pub fn insert(&mut self, entity: u64, kind: u64, data: P)
        ensures
            final(self)@ == old(self)@.insert((entity, kind), data),
    {
        broadcast use vstd::std_specs::hash::group_hash_axioms;

        let ghost m0 = self.by_entity@;
        let mut for_entity = match self.by_entity.remove(&entity) {
            Some(m) => m,
            None => HashMap::new(),
        };
        let ghost inner0 = for_entity@;
        assert(m0.contains_key(entity) ==> inner0 == m0[entity]@);
        assert(!m0.contains_key(entity) ==> inner0 == Map::<u64, P>::empty());
        for_entity.insert(kind, data);
        self.by_entity.insert(entity, for_entity);
        assert(final(self)@ =~= old(self)@.insert((entity, kind), data));
    }

    /// Get data of kind `kind` sent to `entity` during this frame.
    pub fn get(&self, entity: u64, kind: u64) -> (r: Option<&P>)
        ensures
            match r {
                Some(d) => self@.contains_key((entity, kind)) && *d == self@[(entity, kind)],
                None => !self@.contains_key((entity, kind)),
            },
    {
        broadcast use vstd::std_specs::hash::group_hash_axioms;

        match self.by_entity.get(&entity) {
            Some(for_entity) => for_entity.get(&kind),
            None => None,
        }
    }
}

/// What the directives of a frame did, before the frame's commands are applied.
pub struct DirectivesOutcome {
    /// Changes to the selection, in order.
    pub marker_commands: Vec<MarkerCommand>,
    /// The events sent, in order.
    pub events: Vec<YoleckEditorEvent>,
    /// Whether a directive made the level need saving.
    pub level_needs_saving: bool,
    /// Whether an entity was created and selected (the exclusive systems queue is then rebuilt
    /// for it).
    pub entity_created_and_selected: bool,
}

/// The entities of `start` other than `keep`, in order.
pub open spec fn others(start: Seq<u64>, keep: Option<u64>) -> Seq<u64> {
    start.filter(|x: u64| keep != Some(x))
}

pub open spec fn removals(s: Seq<u64>) -> Seq<MarkerCommand> {
    s.map_values(|x: u64| MarkerCommand::Remove(x))
}

pub open spec fn deselections(s: Seq<u64>) -> Seq<YoleckEditorEvent> {
    s.map_values(|x: u64| YoleckEditorEvent::EntityDeselected(x))
}

/// The commands of `SetSelected(target)` against the selection at the start of the frame: every
/// other selected entity is deselected, and the target is selected unless it already was.
pub open spec fn set_selected_commands(start: Seq<u64>, target: Option<u64>) -> Seq<MarkerCommand> {
    removals(others(start, target)) + match target {
        Some(e) => if start.contains(e) {
            Seq::empty()
        } else {
            seq![MarkerCommand::Insert(e)]
        },
        None => Seq::empty(),
    }
}

/// The events of `SetSelected(target)`, matching [`set_selected_commands`].
pub open spec fn set_selected_events(start: Seq<u64>, target: Option<u64>) -> Seq<YoleckEditorEvent> {
    deselections(others(start, target)) + match target {
        Some(e) => if start.contains(e) {
            Seq::empty()
        } else {
            seq![YoleckEditorEvent::EntitySelected(e)]
        },
        None => Seq::empty(),
    }
}

/// The commands of `ChangeSelectedStatus`: `force_to` of `None` toggles.
pub open spec fn change_status_commands(
    start: Seq<u64>,
    entity: u64,
    force_to: Option<bool>,
) -> Seq<MarkerCommand> {
    let selected = start.contains(entity);
    let want = match force_to {
        Some(b) => b,
        None => !selected,
    };
    if want == selected {
        Seq::empty()
    } else if want {
        seq![MarkerCommand::Insert(entity)]
    } else {
        seq![MarkerCommand::Remove(entity)]
    }
}

/// The events of `ChangeSelectedStatus`, matching [`change_status_commands`].
pub open spec fn change_status_events(
    start: Seq<u64>,
    entity: u64,
    force_to: Option<bool>,
) -> Seq<YoleckEditorEvent> {
    let selected = start.contains(entity);
    let want = match force_to {
        Some(b) => b,
        None => !selected,
    };
    if want == selected {
        Seq::empty()
    } else if want {
        seq![YoleckEditorEvent::EntitySelected(entity)]
    } else {
        seq![YoleckEditorEvent::EntityDeselected(entity)]
    }
}

/// An entity to spawn for a `SpawnEntity` directive.
pub struct SpawnRequest {
    pub entry: YoleckRawEntry,
    pub level: u64,
    pub select_created_entity: bool,
}

impl DirectivesOutcome {
    pub fn new() -> (r: Self)
        ensures
            r.marker_commands@.len() == 0,
            r.events@.len() == 0,
            !r.level_needs_saving,
            !r.entity_created_and_selected,
    {
        DirectivesOutcome {
            marker_commands: Vec::new(),
            events: Vec::new(),
            level_needs_saving: false,
            entity_created_and_selected: false,
        }
    }

    fn deselect_all_but(&mut self, start: &Vec<u64>, keep: Option<u64>)
        ensures
            final(self).marker_commands@ == old(self).marker_commands@ + removals(others(start@, keep)),
            final(self).events@ == old(self).events@ + deselections(others(start@, keep)),
            final(self).level_needs_saving == old(self).level_needs_saving,
            final(self).entity_created_and_selected == old(self).entity_created_and_selected,
    {
        let ghost f = |x: u64| keep != Some(x);
        let ghost c0 = self.marker_commands@;
        let ghost v0 = self.events@;
        let mut i: usize = 0;
        assert(start@.take(0).filter(f) =~= Seq::<u64>::empty());
        assert(c0 + removals(Seq::<u64>::empty()) =~= c0);
        assert(v0 + deselections(Seq::<u64>::empty()) =~= v0);
        while i < start.len()
            invariant
                i <= start.len(),
                f == (|x: u64| keep != Some(x)),
                self.marker_commands@ == c0 + removals(start@.take(i as int).filter(f)),
                self.events@ == v0 + deselections(start@.take(i as int).filter(f)),
                self.level_needs_saving == old(self).level_needs_saving,
                self.entity_created_and_selected == old(self).entity_created_and_selected,
            decreases start.len() - i,
        {
            let x = start[i];
            let ghost fl = start@.take(i as int).filter(f);
            proof {
                assert(start@.take(i + 1) =~= start@.take(i as int).push(x));
                start@.take(i as int).lemma_filter_push(x, f);
            }
            let is_kept = match keep {
                Some(k) => k == x,
                None => false,
            };
            if !is_kept {
                self.marker_commands.push(MarkerCommand::Remove(x));
                self.events.push(YoleckEditorEvent::EntityDeselected(x));
                assert(removals(fl.push(x)) =~= removals(fl).push(MarkerCommand::Remove(x)));
                assert(deselections(fl.push(x)) =~= deselections(fl).push(
                    YoleckEditorEvent::EntityDeselected(x),
                ));
                assert(c0 + removals(fl).push(MarkerCommand::Remove(x)) =~= (c0 + removals(fl)).push(
                    MarkerCommand::Remove(x),
                ));
                assert(v0 + deselections(fl).push(YoleckEditorEvent::EntityDeselected(x)) =~= (v0
                    + deselections(fl)).push(YoleckEditorEvent::EntityDeselected(x)));
            }
            i = i + 1;
        }
        assert(start@.take(i as int) =~= start@);
    }

    /// Handles one directive. `start` is the selection at the start of the frame (a set: no
    /// entity occurs in it twice), and `exclusive_active` whether an exclusive system is running (it blocks all but passing
    /// data). Passed data goes into `passed`. A `SpawnEntity` directive gives back the entity to
    /// spawn; [`record_spawn`](Self::record_spawn) completes it.
    pub fn process_directive<P>(
        &mut self,
        passed: &mut YoleckPassedData<P>,
        start: &Vec<u64>,
        directive: YoleckDirective<P>,
        exclusive_active: bool,
    ) -> (r: Option<SpawnRequest>)
        requires
            start@.no_duplicates(),
        ensures
            match directive {
                YoleckDirective::PassToEntity(entity, kind, data) => final(passed)@ == old(passed)@.insert((entity, kind), data) && *final(self) == *old(self) && r is None,
                YoleckDirective::SetSelected(target) => final(passed)@ == old(passed)@ && r is None
                    && if exclusive_active {
                    *final(self) == *old(self)
                } else {
                    &&& final(self).marker_commands@ == old(self).marker_commands@
                        + set_selected_commands(start@, target)
                    &&& final(self).events@ == old(self).events@ + set_selected_events(start@, target)
                    &&& final(self).level_needs_saving == old(self).level_needs_saving
                    &&& final(self).entity_created_and_selected == old(self).entity_created_and_selected
                },
                YoleckDirective::ChangeSelectedStatus { entity, force_to } => final(passed)@ == old(passed)@ && r is None && if exclusive_active {
                    *final(self) == *old(self)
                } else {
                    &&& final(self).marker_commands@ == old(self).marker_commands@
                        + change_status_commands(start@, entity, force_to)
                    &&& final(self).events@ == old(self).events@ + change_status_events(
                        start@,
                        entity,
                        force_to,
                    )
                    &&& final(self).level_needs_saving == old(self).level_needs_saving
                    &&& final(self).entity_created_and_selected == old(self).entity_created_and_selected
                },
                YoleckDirective::SpawnEntity { level, entity_type, data, select_created_entity } => final(passed)@ == old(passed)@ && *final(self) == *old(self) && if exclusive_active {
                    r is None
                } else {
                    &&& r is Some
                    &&& r->Some_0.level == level
                    &&& r->Some_0.select_created_entity == select_created_entity
                    &&& r->Some_0.entry.header.entity_type@ == entity_type@
                    &&& r->Some_0.entry.header.name@ == Seq::<char>::empty()
                    &&& r->Some_0.entry.header.uuid is None
                    &&& r->Some_0.entry.data@ == data@
                },
            },
    {
        match directive {
            YoleckDirective::PassToEntity(entity, kind, data) => {
                passed.insert(entity, kind, data);
                None
            },
            YoleckDirective::SetSelected(target) => {
                if exclusive_active {
                    return None;
                }
                let ghost c0 = self.marker_commands@;
                let ghost v0 = self.events@;
                self.deselect_all_but(start, target);
                if let Some(e) = target {
                    if !crate::entity_management::contains_u64(start, e) {
                        self.marker_commands.push(MarkerCommand::Insert(e));
                        self.events.push(YoleckEditorEvent::EntitySelected(e));
                    }
                }
                assert(self.marker_commands@ =~= c0 + set_selected_commands(start@, target));
                assert(self.events@ =~= v0 + set_selected_events(start@, target));
                None
            },
            YoleckDirective::ChangeSelectedStatus { entity, force_to } => {
                if exclusive_active {
                    return None;
                }
                let ghost c0 = self.marker_commands@;
                let ghost v0 = self.events@;
                let selected = crate::entity_management::contains_u64(start, entity);
                let want = match force_to {
                    Some(b) => b,
                    None => !selected,
                };
                if want != selected {
                    if want {
                        self.marker_commands.push(MarkerCommand::Insert(entity));
                        self.events.push(YoleckEditorEvent::EntitySelected(entity));
                    } else {
                        self.marker_commands.push(MarkerCommand::Remove(entity));
                        self.events.push(YoleckEditorEvent::EntityDeselected(entity));
                    }
                }
                assert(self.marker_commands@ =~= c0 + change_status_commands(start@, entity, force_to));
                assert(self.events@ =~= v0 + change_status_events(start@, entity, force_to));
                None
            },
            YoleckDirective::SpawnEntity { level, entity_type, data, select_created_entity } => {
                if exclusive_active {
                    return None;
                }
                let entry = YoleckRawEntry {
                    header: YoleckEntryHeader { entity_type, name: String::new(), uuid: None },
                    data,
                };
                Some(SpawnRequest { entry, level, select_created_entity })
            },
        }
    }

    /// Completes a `SpawnEntity` directive once its entity `created` was spawned: when it is to be
    /// selected, it becomes the only selected entity; the level needs saving either way. `start`
    /// is the selection at the start of the frame, in which no entity occurs twice.
    pub fn record_spawn(&mut self, start: &Vec<u64>, created: u64, select_created_entity: bool)
        requires
            start@.no_duplicates(),
        ensures
            final(self).level_needs_saving,
            select_created_entity ==> {
                &&& final(self).events@ == old(self).events@ + seq![
                    YoleckEditorEvent::EntitySelected(created),
                ] + deselections(others(start@, None))
                &&& final(self).marker_commands@ == old(self).marker_commands@ + seq![
                    MarkerCommand::Insert(created),
                ] + removals(others(start@, None))
                &&& final(self).entity_created_and_selected
            },
            !select_created_entity ==> {
                &&& final(self).events@ == old(self).events@
                &&& final(self).marker_commands@ == old(self).marker_commands@
                &&& final(self).entity_created_and_selected == old(self).entity_created_and_selected
            },
    {
        if select_created_entity {
            self.events.push(YoleckEditorEvent::EntitySelected(created));
            self.marker_commands.push(MarkerCommand::Insert(created));
            self.deselect_all_but(start, None);
            self.entity_created_and_selected = true;
        }
        self.level_needs_saving = true;
    }
}

proof fn lemma_apply_concat(s: Set<u64>, c1: Seq<MarkerCommand>, c2: Seq<MarkerCommand>)
    ensures
        apply_marker_commands(s, c1 + c2) == apply_marker_commands(apply_marker_commands(s, c1), c2),
    decreases c2.len(),
{
    if c2.len() == 0 {
        assert(c1 + c2 =~= c1);
    } else {
        assert((c1 + c2).drop_last() =~= c1 + c2.drop_last());
        lemma_apply_concat(s, c1, c2.drop_last());
    }
}

proof fn lemma_apply_one(s: Set<u64>, c: MarkerCommand)
    ensures
        apply_marker_commands(s, seq![c]) == match c {
            MarkerCommand::Insert(e) => s.insert(e),
            MarkerCommand::Remove(e) => s.remove(e),
        },
{
    assert(seq![c].drop_last() =~= Seq::<MarkerCommand>::empty());
    assert(apply_marker_commands(s, Seq::<MarkerCommand>::empty()) == s);
}

proof fn lemma_contains_drop_last(xs: Seq<u64>, a: u64)
    requires
        xs.len() > 0,
    ensures
        xs.contains(a) <==> (xs.drop_last().contains(a) || a == xs.last()),
{
    if xs.contains(a) {
        let i = choose|i: int| 0 <= i < xs.len() && xs[i] == a;
        if i < xs.len() - 1 {
            assert(xs.drop_last()[i] == a);
        }
    }
    if xs.drop_last().contains(a) {
        let i = choose|i: int| 0 <= i < xs.drop_last().len() && xs.drop_last()[i] == a;
        assert(xs[i] == a);
    }
    if a == xs.last() {
        assert(xs[xs.len() - 1] == a);
    }
}

proof fn lemma_apply_removals(s: Set<u64>, xs: Seq<u64>)
    ensures
        forall|a: u64| #[trigger]
            apply_marker_commands(s, removals(xs)).contains(a) <==> (s.contains(a) && !xs.contains(
                a,
            )),
    decreases xs.len(),
{
    if xs.len() > 0 {
        assert(removals(xs).drop_last() =~= removals(xs.drop_last()));
        assert(removals(xs).last() == MarkerCommand::Remove(xs.last()));
        lemma_apply_removals(s, xs.drop_last());
        assert(apply_marker_commands(s, removals(xs)) == apply_marker_commands(
            s,
            removals(xs.drop_last()),
        ).remove(xs.last()));
        assert forall|a: u64| #[trigger]
            apply_marker_commands(s, removals(xs)).contains(a) <==> (s.contains(a) && !xs.contains(
                a,
            )) by {
            lemma_contains_drop_last(xs, a);
        }
    }
}

/// Selecting an entity leaves it the only selected one; selecting nothing leaves none.
pub proof fn lemma_set_selected_selects_only(start: Seq<u64>, target: Option<u64>)
    ensures
        apply_marker_commands(start.to_set(), set_selected_commands(start, target)) == match target {
            Some(e) => Set::<u64>::empty().insert(e),
            None => Set::<u64>::empty(),
        },
{
    let others_seq = others(start, target);
    let f = |x: u64| target != Some(x);
    let tail: Seq<MarkerCommand> = match target {
        Some(e) => if start.contains(e) {
            Seq::empty()
        } else {
            seq![MarkerCommand::Insert(e)]
        },
        None => Seq::empty(),
    };
    lemma_apply_concat(start.to_set(), removals(others_seq), tail);
    lemma_apply_removals(start.to_set(), others_seq);
    let mid = apply_marker_commands(start.to_set(), removals(others_seq));
    assert forall|a: u64| #[trigger] mid.contains(a) <==> (start.contains(a) && target == Some(a)) by {
        if start.contains(a) && target != Some(a) {
            let i = choose|i: int| 0 <= i < start.len() && start[i] == a;
            start.lemma_filter_contains(f, i);
        }
        if others_seq.contains(a) {
            start.lemma_filter_contains_rev(f, a);
            let j = choose|j: int| 0 <= j < others_seq.len() && others_seq[j] == a;
            start.lemma_filter_pred(f, j);
        }
    }
    match target {
        Some(e) => {
            if start.contains(e) {
                assert(apply_marker_commands(mid, tail) == mid);
                assert(mid =~= Set::<u64>::empty().insert(e));
            } else {
                lemma_apply_one(mid, MarkerCommand::Insert(e));
                assert(mid =~= Set::<u64>::empty());
                assert(apply_marker_commands(mid, tail) =~= Set::<u64>::empty().insert(e));
            }
        },
        None => {
            assert(mid =~= Set::<u64>::empty());
        },
    }
}

/// Toggling an entity flips whether it is selected and leaves the rest of the selection as it
/// was.
pub proof fn lemma_toggle_flips(start: Seq<u64>, entity: u64)
    ensures
        apply_marker_commands(start.to_set(), change_status_commands(start, entity, None))
            == if start.contains(entity) {
            start.to_set().remove(entity)
        } else {
            start.to_set().insert(entity)
        },
{
    if start.contains(entity) {
        lemma_apply_one(start.to_set(), MarkerCommand::Remove(entity));
    } else {
        lemma_apply_one(start.to_set(), MarkerCommand::Insert(entity));
    }
}

/// Forcing the status of an entity makes it selected exactly when `force_to` says so, and leaves
/// the rest of the selection as it was.
pub proof fn lemma_force_status(start: Seq<u64>, entity: u64, force_to: bool)
    ensures
        apply_marker_commands(start.to_set(), change_status_commands(start, entity, Some(force_to)))
            == if force_to {
            start.to_set().insert(entity)
        } else {
            start.to_set().remove(entity)
        },
{
    let selected = start.contains(entity);
    assert(start.to_set().contains(entity) == selected);
    if force_to == selected {
        if force_to {
            assert(start.to_set().insert(entity) =~= start.to_set());
        } else {
            assert(start.to_set().remove(entity) =~= start.to_set());
        }
    } else if force_to {
        lemma_apply_one(start.to_set(), MarkerCommand::Insert(entity));
    } else {
        lemma_apply_one(start.to_set(), MarkerCommand::Remove(entity));
    }
}

/// Whether the sections that create and select entities are shown: only in editor mode, and
/// not while an exclusive system is running.
pub fn entity_sections_shown(exclusive_active: bool, editor_state: YoleckEditorState) -> (r: bool)
    ensures
        r == (!exclusive_active && editor_state == YoleckEditorState::EditorActive),
{
    !exclusive_active && match editor_state {
        YoleckEditorState::EditorActive => true,
        YoleckEditorState::GameActive => false,
    }
}

/// The directive sent by the "Add New Entity" popup for an entity type: spawn an entity of that
/// type in the level being edited, with no component data, and select it.
pub fn new_entity_directive<P>(yoleck: &YoleckState, entity_type: &str) -> (r: YoleckDirective<P>)
    ensures
        match r {
            YoleckDirective::SpawnEntity { level, entity_type: t, data, select_created_entity } => {
                &&& level == yoleck.level_being_edited
                &&& t@ == entity_type@
                &&& data@ == JsonModel::Object(Seq::empty())
                &&& select_created_entity
            },
            _ => false,
        },
{
    YoleckDirective::SpawnEntity {
        level: yoleck.level_being_edited,
        entity_type: String::from_str(entity_type),
        data: JsonValue::empty_object(),
        select_created_entity: true,
    }
}

/// The caption of an entity in the editor: its type and `entity` (the entity's debug text) when
/// it has no name, else its name followed by them in parentheses.
pub open spec fn spec_caption(entity: Seq<char>, name: Seq<char>, entity_type: Seq<char>) -> Seq<
    char,
> {
    if name.len() == 0 {
        entity_type + " "@ + entity
    } else {
        name + " ("@ + entity_type + " "@ + entity + ")"@
    }
}

/// The caption of an entity in the editor. `entity` is the text that identifies the entity.
pub fn format_caption(entity: &str, yoleck_managed: &YoleckManaged) -> (r: String)
    ensures
        r@ == spec_caption(entity@, yoleck_managed@.name, yoleck_managed@.entity_type),
{
    let name = yoleck_managed.name.as_str();
    let entity_type = yoleck_managed.entity_type.as_str();
    if name.unicode_len() == 0 {
        let mut r = String::from_str(entity_type);
        r.append(" ");
        r.append(entity);
        r
    } else {
        let mut r = String::from_str(name);
        r.append(" (");
        r.append(entity_type);
        r.append(" ");
        r.append(entity);
        r.append(")");
        r
    }
}

/// Whether `needle` occurs in `haystack` (the empty text occurs in every text).
pub open spec fn spec_contains_text(haystack: Seq<char>, needle: Seq<char>) -> bool {
    exists|i: int|
        0 <= i && i + needle.len() <= haystack.len() && #[trigger] haystack.subrange(
            i,
            i + needle.len(),
        ) == needle
}

/// Whether `needle` occurs in `haystack`.
pub fn contains_text(haystack: &str, needle: &str) -> (r: bool)
    ensures
        r == spec_contains_text(haystack@, needle@),
{
    let h = haystack.unicode_len();
    let n = needle.unicode_len();
    if n > h {
        return false;
    }
    if n == 0 {
        assert(haystack@.subrange(0, 0int + needle@.len()) =~= needle@);
        return true;
    }
    let mut i: usize = 0;
    while i <= h - n
        invariant
            0 < n <= h,
            h == haystack@.len(),
            n == needle@.len(),
            i <= h - n + 1,
            forall|k: int| 0 <= k < i ==> #[trigger] haystack@.subrange(k, k + n) != needle@,
        decreases h - n + 1 - i,
    {
        let mut j: usize = 0;
        let mut matched = true;
        while j < n
            invariant
                n <= h,
                i <= h - n,
                h == haystack@.len(),
                n == needle@.len(),
                j <= n,
                matched ==> forall|k: int| 0 <= k < j ==> haystack@[i + k] == needle@[k],
                !matched ==> haystack@.subrange(i as int, i + n) != needle@,
            decreases n - j,
        {
            if matched && haystack.get_char(i + j) != needle.get_char(j) {
                matched = false;
                assert(haystack@.subrange(i as int, i + n)[j as int] != needle@[j as int]);
            }
            j = j + 1;
        }
        if matched {
            assert(haystack@.subrange(i as int, i + n) =~= needle@);
            return true;
        }
        i = i + 1;
    }
    proof {
        if spec_contains_text(haystack@, needle@) {
            let k = choose|k: int|
                0 <= k && k + n <= h && #[trigger] haystack@.subrange(k, k + n) == needle@;
            assert(haystack@.subrange(k, k + n) != needle@);
        }
    }
    false
}

/// The filter of the entity list: by name (a text the name must contain) and by type (when no
/// type is chosen, every type is shown).
pub struct EntitySelectionFilter {
    pub name: String,
    types: Vec<String>,
}

impl View for EntitySelectionFilter {
    type V = (Seq<char>, Set<Seq<char>>);

    closed spec fn view(&self) -> (Seq<char>, Set<Seq<char>>) {
        (self.name@, strings_view(self.types@).to_set())
    }
}

/// Whether an entity passes the filter `(name, types)` of the entity list.
pub open spec fn spec_passes_filter(
    filter: (Seq<char>, Set<Seq<char>>),
    entity_type: Seq<char>,
    name: Seq<char>,
) -> bool {
    (filter.1.is_empty() || filter.1.contains(entity_type)) && spec_contains_text(name, filter.0)
}

impl EntitySelectionFilter {
    pub fn new() -> (r: Self)
        ensures
            r@.0 == Seq::<char>::empty(),
            r@.1 == Set::<Seq<char>>::empty(),
    {
        let r = EntitySelectionFilter { name: String::new(), types: Vec::new() };
        assert(strings_view(r.types@) =~= Seq::<Seq<char>>::empty());
        assert(strings_view(r.types@).to_set() =~= Set::<Seq<char>>::empty());
        r
    }

    /// Whether entities of `entity_type` are chosen to be shown.
    pub fn shows_type(&self, entity_type: &str) -> (r: bool)
        ensures
            r == self@.1.contains(entity_type@),
    {
        contains_string(&self.types, entity_type)
    }

    /// Choose whether entities of `entity_type` are shown (the checkbox of that type).
    pub fn set_type_shown(&mut self, entity_type: &str, should_show: bool)
        ensures
            final(self)@.0 == old(self)@.0,
            final(self)@.1 == if should_show {
                old(self)@.1.insert(entity_type@)
            } else {
                old(self)@.1.remove(entity_type@)
            },
    {
        let ghost old_set = strings_view(self.types@).to_set();
        if should_show {
            if !contains_string(&self.types, entity_type) {
                self.types.push(String::from_str(entity_type));
                proof {
                    assert(strings_view(self.types@) =~= strings_view(old(self).types@).push(
                        entity_type@,
                    ));
                    strings_view(old(self).types@).lemma_push_to_set_commute(entity_type@);
                }
            } else {
                assert(old_set.insert(entity_type@) =~= old_set);
            }
        } else {
            let mut kept: Vec<String> = Vec::new();
            let mut i: usize = 0;
            while i < self.types.len()
                invariant
                    i <= self.types.len(),
                    self.types@ == old(self).types@,
                    self.name@ == old(self).name@,
                    forall|x: Seq<char>|
                        strings_view(kept@).contains(x) <==> (x != entity_type@ && strings_view(
                            self.types@.take(i as int),
                        ).contains(x)),
                decreases self.types.len() - i,
            {
                let t = self.types[i].clone();
                proof {
                    assert(strings_view(self.types@.take(i + 1)) =~= strings_view(
                        self.types@.take(i as int),
                    ).push(self.types@[i as int]@));
                }
                let ghost before = kept@;
                if !str_equal(t.as_str(), entity_type) {
                    kept.push(t);
                    proof {
                        assert(strings_view(kept@) =~= strings_view(before).push(
                            self.types@[i as int]@,
                        ));
                    }
                }
                proof {
                    assert forall|x: Seq<char>|
                        strings_view(kept@).contains(x) <==> (x != entity_type@ && strings_view(
                            self.types@.take(i + 1),
                        ).contains(x)) by {
                        lemma_push_contains(
                            strings_view(self.types@.take(i as int)),
                            self.types@[i as int]@,
                            x,
                        );
                        lemma_push_contains(strings_view(before), self.types@[i as int]@, x);
                    }
                }
                i = i + 1;
            }
            assert(self.types@.take(i as int) =~= self.types@);
            self.types = kept;
            assert(strings_view(self.types@).to_set() =~= old_set.remove(entity_type@));
        }
    }

    /// Whether an entity with the given type and name is listed.
    pub fn passes(&self, entity_type: &str, name: &str) -> (r: bool)
        ensures
            r == spec_passes_filter(self@, entity_type@, name@),
    {
        proof {
            if self.types.len() > 0 {
                assert(strings_view(self.types@)[0] == self.types@[0]@);
                assert(strings_view(self.types@).to_set().contains(self.types@[0]@));
            } else {
                assert(strings_view(self.types@).to_set() =~= Set::<Seq<char>>::empty());
            }
        }
        (self.types.len() == 0 || contains_string(&self.types, entity_type)) && contains_text(
            name,
            self.name.as_str(),
        )
    }
}

proof fn lemma_push_contains(s: Seq<Seq<char>>, y: Seq<char>, x: Seq<char>)
    ensures
        s.push(y).contains(x) <==> (s.contains(x) || x == y),
{
    if s.contains(x) {
        let i = choose|i: int| 0 <= i < s.len() && s[i] == x;
        assert(s.push(y)[i] == x);
    }
    if x == y {
        assert(s.push(y)[s.len() as int] == x);
    }
    if s.push(y).contains(x) {
        let i = choose|i: int| 0 <= i < s.push(y).len() && s.push(y)[i] == x;
        if i < s.len() {
            assert(s[i] == x);
        }
    }
}

/// The directive sent when an entity of the list is clicked: with Shift it is toggled in the
/// selection; otherwise a selected entity deselects everything and an unselected one becomes
/// the only selected entity.
pub fn selection_click_directive<P>(entity: u64, is_selected: bool, shift_held: bool) -> (r:
    YoleckDirective<P>)
    ensures
        r == if shift_held {
            YoleckDirective::<P>::ChangeSelectedStatus { entity, force_to: None }
        } else if is_selected {
            YoleckDirective::<P>::SetSelected(None)
        } else {
            YoleckDirective::<P>::SetSelected(Some(entity))
        },
{
    if shift_held {
        YoleckDirective::toggle_selected(entity)
    } else if is_selected {
        YoleckDirective::set_selected(None)
    } else {
        YoleckDirective::set_selected(Some(entity))
    }
}

/// The "Delete" button of the entity being edited: the entity is deselected (the caller despawns
/// it) and the level needs saving.
pub fn delete_edited_entity(yoleck: &mut YoleckState, entity: u64) -> (r: YoleckEditorEvent)
    ensures
        r == YoleckEditorEvent::EntityDeselected(entity),
        final(yoleck).level_needs_saving,
        final(yoleck).level_being_edited == old(yoleck).level_being_edited,
{
    yoleck.level_needs_saving = true;
    YoleckEditorEvent::EntityDeselected(entity)
}

} // verus!
