use std::collections::HashMap;
use vstd::prelude::*;

verus! {

/// The hexadecimal digit (lower case) for a nibble.
pub open spec fn hex_digit(n: int) -> char {
    if n < 10 {
        (48 + n) as char
    } else {
        (87 + n) as char
    }
}

/// The `k`-th nibble of a UUID, counted from the most significant one.
pub open spec fn uuid_nibble(u: u128, k: int) -> int {
    ((u >> ((124 - 4 * k) as u128)) & 0xf) as int
}

/// The nibble that the character at position `p` of the hyphenated text shows.
pub open spec fn hyphenated_nibble_index(p: int) -> int {
    if p < 8 {
        p
    } else if p < 13 {
        p - 1
    } else if p < 18 {
        p - 2
    } else if p < 23 {
        p - 3
    } else {
        p - 4
    }
}

/// The hyphenated text of a UUID: 32 lower-case hex digits, most significant first, with
/// hyphens after the 8th, 12th, 16th and 20th digit.
pub open spec fn uuid_text(u: u128) -> Seq<char> {
    Seq::new(
        36,
        |p: int|
            if p == 8 || p == 13 || p == 18 || p == 23 {
                '-'
            } else {
                hex_digit(uuid_nibble(u, hyphenated_nibble_index(p)))
            },
    )
}

/// Calls `uuid::Uuid::new_v4`. The result is random; every outcome has the version nibble set
/// to 4 and the variant bits set to `10` (RFC 4122), which is what `new_v4` masks into the
/// random bits. `new_v4` panics when the operating system gives no random bytes.
#[verifier::external_body]
pub(crate) fn new_random_uuid() -> (r: u128)
    ensures
        (r >> 76u128) & 0xf == 4,
        (r >> 62u128) & 0x3 == 2,
{
    uuid::Uuid::new_v4().as_u128()
}

/// Calls `uuid::Uuid::to_string` (its `Display`), which writes the hyphenated lower-case form.
#[verifier::external_body]
pub(crate) fn uuid_to_string(u: u128) -> (r: String)
    ensures
        r@ == uuid_text(u),
{
    uuid::Uuid::from_u128(u).to_string()
}

/// A UUID automatically added to entity types defined with `with_uuid`.
///
/// This UUID can be used to refer to the entity in a persistent way - e.g. from a component of
/// another entity. The entity ID itself will change between runs, but the UUID can reliably
/// store the connection between the entities in the `.yol` file.
#[derive(Debug)]
pub struct YoleckEntityUuid(pub(crate) u128);

impl View for YoleckEntityUuid {
    type V = u128;

    closed spec fn view(&self) -> u128 {
        self.0
    }
}

impl YoleckEntityUuid {
    pub fn new(uuid: u128) -> (r: Self)
        ensures
            r@ == uuid,
    {
        YoleckEntityUuid(uuid)
    }

    pub fn get(&self) -> (r: u128)
        ensures
            r == self@,
    {
        self.0
    }
}

/// Helper registry for finding `with_uuid` defined entities by their UUID.
///
/// To find a UUID given the entity - check its [`YoleckEntityUuid`] component.
pub struct YoleckUuidRegistry {
    entities: HashMap<u128, u64>,
}

impl View for YoleckUuidRegistry {
    type V = Map<u128, u64>;

    closed spec fn view(&self) -> Map<u128, u64> {
        self.entities@
    }
}

impl YoleckUuidRegistry {
    pub fn new() -> (r: Self)
        ensures
            r@ == Map::<u128, u64>::empty(),
    {
        YoleckUuidRegistry { entities: HashMap::new() }
    }

    /// The entity registered for `uuid`.
    pub fn get(&self, uuid: u128) -> (r: Option<u64>)
        ensures
            r == (if self@.contains_key(uuid) {
                Some(self@[uuid])
            } else {
                None
            }),
    {
        broadcast use vstd::std_specs::hash::group_hash_axioms;

        match self.entities.get(&uuid) {
            Some(e) => Some(*e),
            None => None,
        }
    }

    /// Register `entity` for `uuid`, replacing what was registered for it before.
    pub fn insert(&mut self, uuid: u128, entity: u64)
        ensures
            final(self)@ == old(self)@.insert(uuid, entity),
    {
        broadcast use vstd::std_specs::hash::group_hash_axioms;

        self.entities.insert(uuid, entity);
    }
}

/// The UUID of a clicked entity, for an exclusive system that picks an entity to refer to:
/// `entity_uuids` lists the entities that have a UUID. `None` when no entity was clicked or it
/// has no UUID.
pub fn yoleck_map_entity_to_uuid(entity: Option<u64>, entity_uuids: &Vec<(u64, YoleckEntityUuid)>) -> (r:
    Option<u128>)
    ensures
        match entity {
            None => r is None,
            Some(e) => match r {
                Some(u) => exists|i: int|
                    0 <= i < entity_uuids@.len() && entity_uuids@[i].0 == e && entity_uuids@[i].1@
                        == u && forall|j: int| 0 <= j < i ==> #[trigger] entity_uuids@[j].0 != e,
                None => forall|j: int| 0 <= j < entity_uuids@.len() ==> #[trigger] entity_uuids@[j].0 != e,
            },
        },
{
    let e = match entity {
        Some(e) => e,
        None => {
            return None;
        },
    };
    let mut i: usize = 0;
    while i < entity_uuids.len()
        invariant
            i <= entity_uuids.len(),
            entity == Some(e),
            forall|j: int| 0 <= j < i ==> #[trigger] entity_uuids@[j].0 != e,
        decreases entity_uuids.len() - i,
    {
        if entity_uuids[i].0 == e {
            return Some(entity_uuids[i].1.get());
        }
        i = i + 1;
    }
    None
}

} // verus!
