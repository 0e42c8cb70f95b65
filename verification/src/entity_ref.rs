use vstd::prelude::*;
use vstd::string::*;

use crate::entity_uuid::{uuid_text, uuid_to_string, YoleckUuidRegistry};
use crate::exclusive_systems::YoleckExclusiveSystemDirective;
use crate::json::str_equal;
use crate::specs_registration::{last_type_index, YoleckEntityConstructionSpecs};

verus! {

/// A reference to another Yoleck entity, stored by UUID for persistence.
///
/// This allows one entity to reference another entity in a way that survives saving and loading.
/// The reference is stored as a UUID in the level file, which gets resolved to an actual entity
/// at runtime. Only entities of types defined `with_uuid` can be referenced.
#[derive(Debug, Clone, Copy, PartialEq, Eq, Structural)]
pub struct YoleckEntityRef {
    uuid: Option<u128>,
    resolved: Option<u64>,
}

impl View for YoleckEntityRef {
    /// The UUID referred to, and the entity it was last resolved to.
    type V = (Option<u128>, Option<u64>);

    closed spec fn view(&self) -> (Option<u128>, Option<u64>) {
        (self.uuid, self.resolved)
    }
}

impl YoleckEntityRef {
    pub fn new() -> (r: Self)
        ensures
            r@ == (None::<u128>, None::<u64>),
    {
        YoleckEntityRef { uuid: None, resolved: None }
    }

    pub fn from_uuid(uuid: u128) -> (r: Self)
        ensures
            r@ == (Some(uuid), None::<u64>),
    {
        YoleckEntityRef { uuid: Some(uuid), resolved: None }
    }

    pub fn is_some(&self) -> (r: bool)
        ensures
            r == self@.0 is Some,
    {
        self.uuid.is_some()
    }

    pub fn is_none(&self) -> (r: bool)
        ensures
            r == self@.0 is None,
    {
        self.uuid.is_none()
    }

    pub fn get_entity(&self) -> (r: Option<u64>)
        ensures
            r == self@.1,
    {
        self.resolved
    }

    pub fn get_uuid(&self) -> (r: Option<u128>)
        ensures
            r == self@.0,
    {
        self.uuid
    }

    pub fn clear(&mut self)
        ensures
            final(self)@ == (None::<u128>, None::<u64>),
    {
        self.uuid = None;
        self.resolved = None;
    }

    pub fn set(&mut self, uuid: u128)
        ensures
            final(self)@ == (Some(uuid), None::<u64>),
    {
        self.uuid = Some(uuid);
        self.resolved = None;
    }

    /// Look the UUID up in the registry; the entity found (or none) becomes the resolved one.
    pub fn resolve(&mut self, registry: &YoleckUuidRegistry)
        ensures
            final(self)@.0 == old(self)@.0,
            final(self)@.1 == match old(self)@.0 {
                Some(u) => if registry@.contains_key(u) {
                    Some(registry@[u])
                } else {
                    None
                },
                None => None,
            },
    {
        if let Some(uuid) = self.uuid {
            self.resolved = registry.get(uuid);
        } else {
            self.resolved = None;
        }
    }
}

/// The display name of a referenced entity: `type (first 8 UUID digits)` when it has no name,
/// `type - name` when it has one.
pub open spec fn spec_referenced_entity_label(
    entity_type: Seq<char>,
    name: Seq<char>,
    uuid: u128,
) -> Seq<char> {
    if name.len() == 0 {
        entity_type + " ("@ + uuid_text(uuid).take(8) + ")"@
    } else {
        entity_type + " - "@ + name
    }
}

/// The label shown for a reference field: the referenced entity's label when the reference was
/// resolved (`Unknown` when that entity is not a Yoleck entity any more), else the UUID, or
/// `None` for an empty reference.
pub open spec fn spec_entity_ref_label(
    entity_ref: (Option<u128>, Option<u64>),
    referenced: Option<(Seq<char>, Seq<char>)>,
) -> Seq<char> {
    match entity_ref.1 {
        Some(_) => match referenced {
            Some((entity_type, name)) => spec_referenced_entity_label(
                entity_type,
                name,
                match entity_ref.0 {
                    Some(u) => u,
                    None => 0,
                },
            ),
            None => "Unknown"@,
        },
        None => match entity_ref.0 {
            Some(u) => uuid_text(u),
            None => "None"@,
        },
    }
}

/// The label for an entity in a reference field: see [`spec_referenced_entity_label`].
pub fn referenced_entity_label(entity_type: &str, name: &str, uuid: u128) -> (r: String)
    ensures
        r@ == spec_referenced_entity_label(entity_type@, name@, uuid),
{
    let mut r = String::from_str(entity_type);
    if name.unicode_len() == 0 {
        let text = uuid_to_string(uuid);
        r.append(" (");
        r.append(text.as_str().substring_char(0, 8));
        r.append(")");
    } else {
        r.append(" - ");
        r.append(name);
    }
    r
}

/// The label shown for a reference field. `referenced` is the type name and name of the entity
/// the reference is resolved to, when that entity is a Yoleck entity.
pub fn entity_ref_label(entity_ref: &YoleckEntityRef, referenced: Option<(&str, &str)>) -> (r:
    String)
    ensures
        r@ == spec_entity_ref_label(
            entity_ref@,
            match referenced {
                Some((t, n)) => Some((t@, n@)),
                None => None,
            },
        ),
{
    match entity_ref.resolved {
        Some(_) => match referenced {
            Some((entity_type, name)) => {
                let uuid = match entity_ref.uuid {
                    Some(u) => u,
                    None => 0,
                };
                referenced_entity_label(entity_type, name, uuid)
            },
            None => String::from_str("Unknown"),
        },
        None => match entity_ref.uuid {
            Some(u) => uuid_to_string(u),
            None => String::from_str("None"),
        },
    }
}

/// The text of an automatically edited reference field: the referenced entity's label (see
/// [`spec_referenced_entity_label`]) when its type and name are known, else its UUID, or `None`
/// for an empty reference. `info` is the type and name known for the UUID.
pub fn auto_edit_entity_ref_text(entity_ref: &YoleckEntityRef, info: Option<(&str, &str)>) -> (r:
    String)
    ensures
        r@ == match entity_ref@.0 {
            None => "None"@,
            Some(u) => match info {
                Some((t, n)) => spec_referenced_entity_label(t@, n@, u),
                None => uuid_text(u),
            },
        },
{
    match entity_ref.uuid {
        None => String::from_str("None"),
        Some(u) => match info {
            Some((t, n)) => referenced_entity_label(t, n, u),
            None => uuid_to_string(u),
        },
    }
}

/// Whether an entity of type `entity_type` may be offered for a reference field with `filter`.
pub fn entity_type_passes_filter(filter: Option<&str>, entity_type: &str) -> (r: bool)
    ensures
        r == match filter {
            Some(f) => f@ == entity_type@,
            None => true,
        },
{
    match filter {
        Some(f) => str_equal(f, entity_type),
        None => true,
    }
}

/// Whether a UUID dropped on a reference field of an edit system is taken. `dropped_type` is the
/// type of the entity with that UUID, when there is one. With a filter, the entity must exist and
/// match it.
pub fn edit_field_accepts_drop(filter: Option<&str>, dropped_type: Option<&str>) -> (r: bool)
    ensures
        r == match filter {
            Some(f) => match dropped_type {
                Some(t) => f@ == t@,
                None => false,
            },
            None => true,
        },
{
    match filter {
        Some(f) => match dropped_type {
            Some(t) => str_equal(f, t),
            None => false,
        },
        None => true,
    }
}

/// Whether a UUID dropped on an automatically edited reference field is taken. `dropped_type`
/// is the type of the entity with that UUID, when it is known. A field constrained to a type
/// takes only entities known to be of that type; an unconstrained field takes any entity.
pub fn auto_edit_field_accepts_drop(filter: Option<&str>, dropped_type: Option<&str>) -> (r: bool)
    ensures
        r == match filter {
            Some(f) => match dropped_type {
                Some(t) => f@ == t@,
                None => false,
            },
            None => true,
        },
{
    edit_field_accepts_drop(filter, dropped_type)
}

/// One step of the exclusive system that sets a reference field from a click in the viewport:
/// a clicked entity's UUID is stored and the system finishes; without one it keeps listening.
pub fn entity_ref_select_step(entity_ref: &mut YoleckEntityRef, target: Option<u128>) -> (r:
    YoleckExclusiveSystemDirective)
    ensures
        match target {
            Some(u) => final(entity_ref)@ == (Some(u), None::<u64>) && r
                == YoleckExclusiveSystemDirective::Finished,
            None => final(entity_ref)@ == old(entity_ref)@ && r
                == YoleckExclusiveSystemDirective::Listening,
        },
{
    if let Some(uuid) = target {
        entity_ref.set(uuid);
        YoleckExclusiveSystemDirective::Finished
    } else {
        YoleckExclusiveSystemDirective::Listening
    }
}

/// The label of an entity offered in the drop-down of a reference field: `type (UUID)` when it
/// has no name, `type - name` when it has one.
pub open spec fn spec_entity_ref_option_label(
    entity_type: Seq<char>,
    name: Seq<char>,
    uuid: u128,
) -> Seq<char> {
    if name.len() == 0 {
        entity_type + " ("@ + uuid_text(uuid) + ")"@
    } else {
        entity_type + " - "@ + name
    }
}

/// The label of an entity offered in the drop-down of a reference field.
pub fn entity_ref_option_label(entity_type: &str, name: &str, uuid: u128) -> (r: String)
    ensures
        r@ == spec_entity_ref_option_label(entity_type@, name@, uuid),
{
    let mut r = String::from_str(entity_type);
    if name.unicode_len() == 0 {
        let text = uuid_to_string(uuid);
        r.append(" (");
        r.append(text.as_str());
        r.append(")");
    } else {
        r.append(" - ");
        r.append(name);
    }
    r
}

/// The entities offered in the drop-down of a reference field with `filter`: the indices of
/// `entity_types` (the types of the entities with a UUID) that pass it, in order.
pub fn entity_ref_options(filter: Option<&str>, entity_types: &Vec<String>) -> (r: Vec<usize>)
    ensures
        forall|i: int, j: int| 0 <= i < j < r@.len() ==> r@[i] < r@[j],
        forall|i: int| 0 <= i < r@.len() ==> r@[i] < entity_types@.len(),
        forall|k: int|
            0 <= k < entity_types@.len() ==> (#[trigger] r@.contains(k as usize) <==> match filter {
                Some(f) => f@ == entity_types@[k]@,
                None => true,
            }),
{
    let mut r: Vec<usize> = Vec::new();
    let mut i: usize = 0;
    while i < entity_types.len()
        invariant
            i <= entity_types.len(),
            forall|a: int, b: int| 0 <= a < b < r@.len() ==> r@[a] < r@[b],
            forall|a: int| 0 <= a < r@.len() ==> r@[a] < i,
            forall|k: int|
                0 <= k < i ==> (#[trigger] r@.contains(k as usize) <==> match filter {
                    Some(f) => f@ == entity_types@[k]@,
                    None => true,
                }),
        decreases entity_types.len() - i,
    {
        let ghost r0 = r@;
        if entity_type_passes_filter(filter, entity_types[i].as_str()) {
            r.push(i);
        }
        proof {
            assert forall|k: int| 0 <= k < i + 1 implies (#[trigger] r@.contains(k as usize) <==> match filter {
                Some(f) => f@ == entity_types@[k]@,
                None => true,
            }) by {
                if r0.contains(k as usize) {
                    let j = choose|j: int| 0 <= j < r0.len() && r0[j] == k as usize;
                    assert(r@[j] == k as usize);
                }
                if r@.contains(k as usize) {
                    let j = choose|j: int| 0 <= j < r@.len() && r@[j] == k as usize;
                    if j < r0.len() {
                        assert(r0[j] == k as usize);
                        assert(r0.contains(k as usize));
                    }
                }
                if k == i && r@.len() > r0.len() {
                    assert(r@[r@.len() - 1] == i);
                }
            }
        }
        i = i + 1;
    }
    r
}

/// What the drop-down of a reference field chose, if anything: `Some(None)` for "None", which
/// clears the reference, or `Some(Some(uuid))` for an entity, whose UUID it then holds.
pub fn apply_entity_ref_choice(entity_ref: &mut YoleckEntityRef, choice: Option<Option<u128>>)
    ensures
        final(entity_ref)@ == match choice {
            Some(Some(u)) => (Some(u), None::<u64>),
            Some(None) => (None::<u128>, None::<u64>),
            None => old(entity_ref)@,
        },
{
    match choice {
        Some(Some(uuid)) => entity_ref.set(uuid),
        Some(None) => entity_ref.clear(),
        None => {},
    }
}

/// A reference field that requires the entities it refers to to be of a given type.
#[derive(Debug, Clone)]
pub struct EntityRefRequirement {
    pub component_type: String,
    pub field_name: String,
    pub required_entity_type: String,
}

/// Whether a requirement is broken: its entity type is registered without a UUID.
pub open spec fn requirement_is_broken(
    specs: YoleckEntityConstructionSpecs,
    required_entity_type: Seq<char>,
) -> bool {
    let i = last_type_index(specs.entity_types@, required_entity_type);
    i >= 0 && !specs.entity_types@[i].has_uuid
}

/// The indices of the requirements whose entity type is registered without `with_uuid`; each
/// of them deserves an error report.
pub fn validate_entity_ref_requirements(
    requirements: &Vec<EntityRefRequirement>,
    construction_specs: &YoleckEntityConstructionSpecs,
) -> (r: Vec<usize>)
    ensures
        forall|k: int| 0 <= k < r.len() ==> r@[k] < requirements.len(),
        forall|k: int, l: int| 0 <= k < l < r.len() ==> r@[k] < r@[l],
        forall|i: int|
            0 <= i < requirements.len() ==> (r@.contains(i as usize) <==> requirement_is_broken(
                *construction_specs,
                #[trigger] requirements@[i].required_entity_type@,
            )),
{
    let mut r: Vec<usize> = Vec::new();
    let mut i: usize = 0;
    while i < requirements.len()
        invariant
            i <= requirements.len(),
            forall|k: int| 0 <= k < r.len() ==> r@[k] < i,
            forall|k: int, l: int| 0 <= k < l < r.len() ==> r@[k] < r@[l],
            forall|j: int|
                0 <= j < i ==> (r@.contains(j as usize) <==> requirement_is_broken(
                    *construction_specs,
                    #[trigger] requirements@[j].required_entity_type@,
                )),
        decreases requirements.len() - i,
    {
        let ghost r0 = r@;
        let broken = match construction_specs.get_entity_type_info(
            requirements[i].required_entity_type.as_str(),
        ) {
            Some(info) => !info.has_uuid,
            None => false,
        };
        if broken {
            r.push(i);
        }
        proof {
            assert forall|j: int|
                0 <= j < i + 1 implies (r@.contains(j as usize) <==> requirement_is_broken(
                *construction_specs,
                #[trigger] requirements@[j].required_entity_type@,
            )) by {
                if broken {
                    assert(r@ == r0.push(i));
                    if r@.contains(j as usize) && j < i {
                        let k = choose|k: int| 0 <= k < r@.len() && r@[k] == j as usize;
                        assert(k < r0.len());
                        assert(r0.contains(j as usize));
                    }
                    if j < i && r0.contains(j as usize) {
                        let k = choose|k: int| 0 <= k < r0.len() && r0[k] == j as usize;
                        assert(r@[k] == j as usize);
                    }
                    if j == i {
                        assert(r@[r0.len() as int] == i);
                    }
                } else {
                    if j == i && r@.contains(j as usize) {
                        let k = choose|k: int| 0 <= k < r@.len() && r@[k] == j as usize;
                        assert(r@[k] < i);
                    }
                }
            }
        }
        i = i + 1;
    }
    r
}

} // verus!
