use vstd::prelude::*;

use crate::editor::YoleckEditorState;
use crate::json::str_equal;

verus! {

/// The strings of a list, as character sequences.
pub open spec fn strings_view(v: Seq<String>) -> Seq<Seq<char>> {
    v.map_values(|s: String| s@)
}

/// When a bundle registered on an entity type is inserted into a newly created entity.
#[derive(Debug, Clone, Copy, PartialEq, Eq, Structural)]
pub enum YoleckOnInitCondition {
    /// Always: in the editor, in playtests and in the actual game.
    Always,
    /// Only for entities in the editor.
    DuringEditor,
    /// Only for entities in playtests or the actual game.
    DuringGame,
}

/// Whether a bundle registered with `condition` goes into an entity created in `state`.
pub open spec fn spec_on_init_applies(
    condition: YoleckOnInitCondition,
    state: YoleckEditorState,
) -> bool {
    match condition {
        YoleckOnInitCondition::Always => true,
        YoleckOnInitCondition::DuringEditor => state == YoleckEditorState::EditorActive,
        YoleckOnInitCondition::DuringGame => state == YoleckEditorState::GameActive,
    }
}

/// Where registered bundles go: an `Always` bundle into every new entity, a `DuringEditor` one
/// only into entities in the editor, and a `DuringGame` one only into entities in playtests and
/// the game; a bundle that goes into entities in both states is an `Always` one.
pub proof fn lemma_on_init_conditions()
    ensures
        forall|s: YoleckEditorState| #[trigger] spec_on_init_applies(YoleckOnInitCondition::Always, s),
        forall|s: YoleckEditorState|
            #[trigger] spec_on_init_applies(YoleckOnInitCondition::DuringEditor, s) <==> s
                == YoleckEditorState::EditorActive,
        forall|s: YoleckEditorState|
            #[trigger] spec_on_init_applies(YoleckOnInitCondition::DuringGame, s) <==> s
                == YoleckEditorState::GameActive,
        !spec_on_init_applies(YoleckOnInitCondition::DuringGame, YoleckEditorState::EditorActive),
        !spec_on_init_applies(YoleckOnInitCondition::DuringEditor, YoleckEditorState::GameActive),
        forall|c: YoleckOnInitCondition|
            (#[trigger] spec_on_init_applies(c, YoleckEditorState::EditorActive)
                && spec_on_init_applies(c, YoleckEditorState::GameActive)) <==> c
                == YoleckOnInitCondition::Always,
{
}

impl YoleckOnInitCondition {
    pub fn applies(&self, state: YoleckEditorState) -> (r: bool)
        ensures
            r == spec_on_init_applies(*self, state),
    {
        match self {
            YoleckOnInitCondition::Always => true,
            YoleckOnInitCondition::DuringEditor => match state {
                YoleckEditorState::EditorActive => true,
                YoleckEditorState::GameActive => false,
            },
            YoleckOnInitCondition::DuringGame => match state {
                YoleckEditorState::EditorActive => false,
                YoleckEditorState::GameActive => true,
            },
        }
    }
}

/// A type of entity that can be created and edited with the Yoleck level editor.
///
/// Yoleck will only read and write the components registered on the entity type with the
/// [`with`](YoleckEntityType::with) method, even if the file has data of other components.
pub struct YoleckEntityType {
    /// The `type_name` used to identify the entity type.
    pub name: String,
    /// The keys of the components registered for this type, in registration order.
    pub components: Vec<String>,
    /// The conditions of the bundles registered with the `insert_on_init` family, in order.
    pub on_init: Vec<YoleckOnInitCondition>,
    pub has_uuid: bool,
}

impl YoleckEntityType {
    pub fn new(name: String) -> (r: Self)
        ensures
            r.name@ == name@,
            r.components@.len() == 0,
            r.on_init@.len() == 0,
            !r.has_uuid,
    {
        YoleckEntityType { name, components: Vec::new(), on_init: Vec::new(), has_uuid: false }
    }

    /// Register a component (by its key) for entities of this type.
    pub fn with(self, component_key: String) -> (r: Self)
        ensures
            r.name == self.name,
            r.components@ == self.components@.push(component_key),
            r.on_init@ == self.on_init@,
            r.has_uuid == self.has_uuid,
    {
        let mut r = self;
        r.components.push(component_key);
        r
    }

    /// Automatically insert a bundle when creating entities of this type.
    pub fn insert_on_init(self) -> (r: Self)
        ensures
            r.name == self.name,
            r.components@ == self.components@,
            r.on_init@ == self.on_init@.push(YoleckOnInitCondition::Always),
            r.has_uuid == self.has_uuid,
    {
        let mut r = self;
        r.on_init.push(YoleckOnInitCondition::Always);
        r
    }

    /// Like [`insert_on_init`](Self::insert_on_init), but only for entities in the editor.
    pub fn insert_on_init_during_editor(self) -> (r: Self)
        ensures
            r.name == self.name,
            r.components@ == self.components@,
            r.on_init@ == self.on_init@.push(YoleckOnInitCondition::DuringEditor),
            r.has_uuid == self.has_uuid,
    {
        let mut r = self;
        r.on_init.push(YoleckOnInitCondition::DuringEditor);
        r
    }

    /// Like [`insert_on_init`](Self::insert_on_init), but only for entities in playtests or the
    /// actual game.
    pub fn insert_on_init_during_game(self) -> (r: Self)
        ensures
            r.name == self.name,
            r.components@ == self.components@,
            r.on_init@ == self.on_init@.push(YoleckOnInitCondition::DuringGame),
            r.has_uuid == self.has_uuid,
    {
        let mut r = self;
        r.on_init.push(YoleckOnInitCondition::DuringGame);
        r
    }

    /// Annotate that the entity has a UUID
    pub fn with_uuid(self) -> (r: Self)
        ensures
            r.name == self.name,
            r.components@ == self.components@,
            r.on_init@ == self.on_init@,
            r.has_uuid,
    {
        let mut r = self;
        r.has_uuid = true;
        r
    }
}

/// What Yoleck keeps of a registered entity type.
pub struct YoleckEntityTypeInfo {
    pub name: String,
    /// The keys of the type's components, in registration order.
    pub components: Vec<String>,
    pub on_init: Vec<YoleckOnInitCondition>,
    pub has_uuid: bool,
}

/// The index of the last type registered under `name`, or -1.
pub open spec fn last_type_index(types: Seq<YoleckEntityTypeInfo>, name: Seq<char>) -> int
    decreases types.len(),
{
    if types.len() == 0 {
        -1
    } else if types.last().name@ == name {
        types.len() - 1
    } else {
        last_type_index(types.drop_last(), name)
    }
}

pub proof fn lemma_last_type_index(types: Seq<YoleckEntityTypeInfo>, name: Seq<char>)
    ensures
        -1 <= last_type_index(types, name) < types.len(),
        last_type_index(types, name) >= 0 ==> types[last_type_index(types, name)].name@ == name,
        last_type_index(types, name) < 0 ==> forall|j: int|
            0 <= j < types.len() ==> #[trigger] types[j].name@ != name,
    decreases types.len(),
{
    if types.len() > 0 {
        lemma_last_type_index(types.drop_last(), name);
        if last_type_index(types, name) < 0 {
            assert forall|j: int| 0 <= j < types.len() implies #[trigger] types[j].name@ != name by {
                if j < types.len() - 1 {
                    assert(types.drop_last()[j] == types[j]);
                }
            }
        }
    }
}

/// The entity types known to Yoleck, and the components for which a handler was set up.
pub struct YoleckEntityConstructionSpecs {
    pub entity_types: Vec<YoleckEntityTypeInfo>,
    /// The keys of the components whose handlers were registered, each once.
    pub component_handlers: Vec<String>,
}

impl YoleckEntityConstructionSpecs {
    pub fn new() -> (r: Self)
        ensures
            r.entity_types@.len() == 0,
            r.component_handlers@.len() == 0,
    {
        YoleckEntityConstructionSpecs { entity_types: Vec::new(), component_handlers: Vec::new() }
    }

    /// The type registered under `entity_type` (the latest registration, should there be
    /// several).
    pub fn get_entity_type_info(&self, entity_type: &str) -> (r: Option<&YoleckEntityTypeInfo>)
        ensures
            match r {
                Some(info) => last_type_index(self.entity_types@, entity_type@) >= 0 && *info
                    == self.entity_types@[last_type_index(self.entity_types@, entity_type@)],
                None => last_type_index(self.entity_types@, entity_type@) < 0,
            },
    {
        let mut i = self.entity_types.len();
        assert(self.entity_types@.take(i as int) =~= self.entity_types@);
        while i > 0
            invariant
                i <= self.entity_types.len(),
                last_type_index(self.entity_types@, entity_type@) == last_type_index(
                    self.entity_types@.take(i as int),
                    entity_type@,
                ),
            decreases i,
        {
            assert(self.entity_types@.take(i as int).drop_last() =~= self.entity_types@.take(
                i - 1,
            ));
            if str_equal(self.entity_types[i - 1].name.as_str(), entity_type) {
                return Some(&self.entity_types[i - 1]);
            }
            i = i - 1;
        }
        None
    }

    /// Whether a handler is registered for the component with this key.
    pub fn has_component_handler(&self, key: &str) -> (r: bool)
        ensures
            r == strings_view(self.component_handlers@).contains(key@),
    {
        contains_string(&self.component_handlers, key)
    }

    /// Add a type of entity that can be edited in Yoleck's level editor.
    ///
    /// Gives back the keys of the components whose handlers this registration sets up (those that
    /// had none before), in the type's order; these need to be built into the application.
    pub fn add_yoleck_entity_type(&mut self, entity_type: YoleckEntityType) -> (r: Vec<String>)
        ensures
            final(self).entity_types@.len() == old(self).entity_types@.len() + 1,
            final(self).entity_types@.drop_last() == old(self).entity_types@,
            final(self).entity_types@.last().name@ == entity_type.name@,
            strings_view(final(self).entity_types@.last().components@) == strings_view(
                entity_type.components@,
            ),
            final(self).entity_types@.last().on_init@ == entity_type.on_init@,
            final(self).entity_types@.last().has_uuid == entity_type.has_uuid,
            strings_view(r@) == strings_view(entity_type.components@).filter(
                |k: Seq<char>| !strings_view(old(self).component_handlers@).contains(k),
            ),
            strings_view(final(self).component_handlers@).to_set() == strings_view(
                old(self).component_handlers@,
            ).to_set() + strings_view(entity_type.components@).to_set(),
    {
        let ghost old_handlers = strings_view(self.component_handlers@);
        let ghost comps = strings_view(entity_type.components@);
        let mut to_register: Vec<String> = Vec::new();
        let mut i: usize = 0;
        while i < entity_type.components.len()
            invariant
                i <= entity_type.components.len(),
                comps == strings_view(entity_type.components@),
                old_handlers == strings_view(self.component_handlers@),
                strings_view(to_register@) == comps.take(i as int).filter(
                    |k: Seq<char>| !old_handlers.contains(k),
                ),
            decreases entity_type.components.len() - i,
        {
            let ghost before = to_register@;
            if !contains_string(&self.component_handlers, entity_type.components[i].as_str()) {
                to_register.push(entity_type.components[i].clone());
            }
            proof {
                let f = |k: Seq<char>| !old_handlers.contains(k);
                assert(comps.take(i + 1) =~= comps.take(i as int).push(comps[i as int]));
                comps.take(i as int).lemma_filter_push(comps[i as int], f);
                assert(strings_view(to_register@) =~= if f(comps[i as int]) {
                    strings_view(before).push(comps[i as int])
                } else {
                    strings_view(before)
                });
            }
            i = i + 1;
        }
        assert(comps.take(i as int) =~= comps);
        let ghost handlers_before = self.component_handlers@;
        let mut j: usize = 0;
        while j < to_register.len()
            invariant
                j <= to_register.len(),
                strings_view(self.component_handlers@).to_set() == strings_view(
                    handlers_before,
                ).to_set() + strings_view(to_register@).take(j as int).to_set(),
                old_handlers == strings_view(handlers_before),
                self.entity_types@ == old(self).entity_types@,
            decreases to_register.len() - j,
        {
            let ghost hv = strings_view(self.component_handlers@);
            if !contains_string(&self.component_handlers, to_register[j].as_str()) {
                self.component_handlers.push(to_register[j].clone());
                assert(strings_view(self.component_handlers@) =~= hv.push(to_register@[j as int]@));
            }
            proof {
                let tv = strings_view(to_register@);
                assert(tv.take(j + 1) =~= tv.take(j as int).push(tv[j as int]));
                tv.take(j as int).lemma_push_to_set_commute(tv[j as int]);
                hv.lemma_push_to_set_commute(tv[j as int]);
                if hv.contains(tv[j as int]) {
                    assert(hv.to_set().contains(tv[j as int]));
                    assert(hv.to_set().insert(tv[j as int]) =~= hv.to_set());
                }
                assert(strings_view(self.component_handlers@).to_set() =~= strings_view(
                    handlers_before,
                ).to_set() + tv.take(j + 1).to_set());
            }
            j = j + 1;
        }
        proof {
            let tv = strings_view(to_register@);
            assert(tv.take(j as int) =~= tv);
            let f = |k: Seq<char>| !old_handlers.contains(k);
            assert forall|x: Seq<char>| comps.contains(x) && !old_handlers.contains(x) implies tv.contains(x) by {
                let k = choose|k: int| 0 <= k < comps.len() && comps[k] == x;
                comps.lemma_filter_contains(f, k);
            }
            assert forall|x: Seq<char>| tv.contains(x) implies comps.contains(x) by {
                comps.lemma_filter_contains_rev(f, x);
            }
            assert(old_handlers.to_set() + tv.to_set() =~= old_handlers.to_set() + comps.to_set());
        }
        let info = YoleckEntityTypeInfo {
            name: entity_type.name,
            components: entity_type.components,
            on_init: entity_type.on_init,
            has_uuid: entity_type.has_uuid,
        };
        let ghost types_before = self.entity_types@;
        self.entity_types.push(info);
        assert(self.entity_types@.drop_last() =~= types_before);
        to_register
    }
}

/// Whether `v` holds a string equal to `s`.
pub fn contains_string(v: &Vec<String>, s: &str) -> (r: bool)
    ensures
        r == strings_view(v@).contains(s@),
{
    let mut i: usize = 0;
    while i < v.len()
        invariant
            i <= v.len(),
            forall|j: int| 0 <= j < i ==> v@[j]@ != s@,
        decreases v.len() - i,
    {
        if str_equal(v[i].as_str(), s) {
            assert(strings_view(v@)[i as int] == s@);
            return true;
        }
        i = i + 1;
    }
    proof {
        if strings_view(v@).contains(s@) {
            let k = choose|k: int| 0 <= k < strings_view(v@).len() && strings_view(v@)[k] == s@;
            assert(v@[k]@ == s@);
        }
    }
    false
}

} // verus!
