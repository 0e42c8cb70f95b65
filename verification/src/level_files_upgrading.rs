use vstd::prelude::*;

use crate::json::{
    elements_model, find_key, json_model, lemma_elements_model, lemma_first_key_index,
    lemma_members_model, lemma_set_key_lookup, members_model, model_as_u64, model_lookup, model_set_key,
    replace_element, set_key, single_member_object, JsonModel, JsonNumber, JsonValue,
};

verus! {

/// The level format version that [`upgrade_level_file`] brings files to.
pub const CURRENT_LEVEL_FORMAT_VERSION: u64 = 2;

/// Why a level file could not be upgraded.
#[derive(Debug, PartialEq, Eq, Clone, Copy)]
pub enum LevelUpgradeError {
    NotAnArray,
    EmptyArray,
    HeaderNotAnObject,
    MissingFormatVersion,
    FormatVersionNotANumber,
    MissingEntityList,
    EntityListNotAnArray,
    EntityMissingType,
    EntityTypeNotAString,
    EntityMissingData,
}

impl LevelUpgradeError {
    /// A human readable description of the error.
    pub fn message(&self) -> (r: &'static str)
        ensures
            r@ == self.spec_message(),
    {
        match self {
            LevelUpgradeError::NotAnArray => "Level file must be an array",
            LevelUpgradeError::EmptyArray => "Level file array must not be empty",
            LevelUpgradeError::HeaderNotAnObject => "Level file header must be an object",
            LevelUpgradeError::MissingFormatVersion => "Level file header must have a `format_version` field",
            LevelUpgradeError::FormatVersionNotANumber => "`format_version` must be a non-negative number",
            LevelUpgradeError::MissingEntityList => "Level file must have entites list as third element",
            LevelUpgradeError::EntityListNotAnArray => "Entity list must be array",
            LevelUpgradeError::EntityMissingType => "Entity must have a header with a `type` field",
            LevelUpgradeError::EntityTypeNotAString => "Entity `type` must be a string",
            LevelUpgradeError::EntityMissingData => "Entity must have data",
        }
    }

    pub open spec fn spec_message(&self) -> Seq<char> {
        match self {
            LevelUpgradeError::NotAnArray => "Level file must be an array"@,
            LevelUpgradeError::EmptyArray => "Level file array must not be empty"@,
            LevelUpgradeError::HeaderNotAnObject => "Level file header must be an object"@,
            LevelUpgradeError::MissingFormatVersion => "Level file header must have a `format_version` field"@,
            LevelUpgradeError::FormatVersionNotANumber => "`format_version` must be a non-negative number"@,
            LevelUpgradeError::MissingEntityList => "Level file must have entites list as third element"@,
            LevelUpgradeError::EntityListNotAnArray => "Entity list must be array"@,
            LevelUpgradeError::EntityMissingType => "Entity must have a header with a `type` field"@,
            LevelUpgradeError::EntityTypeNotAString => "Entity `type` must be a string"@,
            LevelUpgradeError::EntityMissingData => "Entity must have data"@,
        }
    }
}

/// The JSON pointer step `/0`: the first element of an array, or the member `"0"` of an object.
pub open spec fn pointer_step_zero(m: JsonModel) -> Option<JsonModel> {
    match m {
        JsonModel::Array(a) => if a.len() > 0 {
            Some(a[0])
        } else {
            None
        },
        JsonModel::Object(o) => model_lookup(o, "0"@),
        _ => None,
    }
}

/// The JSON pointer step `/type`: the member `"type"` of an object (no array has such an index).
pub open spec fn pointer_step_type(m: JsonModel) -> Option<JsonModel> {
    match m {
        JsonModel::Object(o) => model_lookup(o, "type"@),
        _ => None,
    }
}

/// The type name of an entity, found at the pointer `/0/type`.
pub open spec fn entity_type_model(e: JsonModel) -> Result<Seq<char>, LevelUpgradeError> {
    match pointer_step_zero(e) {
        None => Err(LevelUpgradeError::EntityMissingType),
        Some(h) => match pointer_step_type(h) {
            None => Err(LevelUpgradeError::EntityMissingType),
            Some(JsonModel::Str(t)) => Ok(t),
            Some(_) => Err(LevelUpgradeError::EntityTypeNotAString),
        },
    }
}

/// Format 1 to 2 for one entity `[header, data]`: the data moves under a key named after the
/// entity's type.
pub open spec fn upgrade_entity_model(e: JsonModel) -> Result<JsonModel, LevelUpgradeError> {
    match entity_type_model(e) {
        Err(err) => Err(err),
        Ok(t) => match e {
            JsonModel::Array(a) => if a.len() > 1 {
                Ok(JsonModel::Array(a.update(1, JsonModel::Object(seq![(t, a[1])]))))
            } else {
                Err(LevelUpgradeError::EntityMissingData)
            },
            _ => Err(LevelUpgradeError::EntityMissingData),
        },
    }
}

/// Format 1 to 2 for a list of entities; the first entity that fails decides the error.
pub open spec fn upgrade_entities_model(es: Seq<JsonModel>) -> Result<
    Seq<JsonModel>,
    LevelUpgradeError,
>
    decreases es.len(),
{
    if es.len() == 0 {
        Ok(Seq::empty())
    } else {
        match upgrade_entities_model(es.drop_last()) {
            Err(err) => Err(err),
            Ok(prefix) => match upgrade_entity_model(es.last()) {
                Err(err) => Err(err),
                Ok(e) => Ok(prefix.push(e)),
            },
        }
    }
}

/// Format 1 to 2 for the parts of a level file: the entity list is the third part.
pub open spec fn upgrade_parts_1_to_2_model(parts: Seq<JsonModel>) -> Result<
    Seq<JsonModel>,
    LevelUpgradeError,
> {
    if parts.len() < 3 {
        Err(LevelUpgradeError::MissingEntityList)
    } else {
        match parts[2] {
            JsonModel::Array(es) => match upgrade_entities_model(es) {
                Err(err) => Err(err),
                Ok(es2) => Ok(parts.update(2, JsonModel::Array(es2))),
            },
            _ => Err(LevelUpgradeError::EntityListNotAnArray),
        }
    }
}

/// The `format_version` that a level file declares in its header.
pub open spec fn format_version_model(level: JsonModel) -> Result<u64, LevelUpgradeError> {
    match level {
        JsonModel::Array(parts) => if parts.len() == 0 {
            Err(LevelUpgradeError::EmptyArray)
        } else {
            match parts[0] {
                JsonModel::Object(h) => match model_lookup(h, "format_version"@) {
                    None => Err(LevelUpgradeError::MissingFormatVersion),
                    Some(v) => match model_as_u64(v) {
                        None => Err(LevelUpgradeError::FormatVersionNotANumber),
                        Some(n) => Ok(n),
                    },
                },
                _ => Err(LevelUpgradeError::HeaderNotAnObject),
            }
        },
        _ => Err(LevelUpgradeError::NotAnArray),
    }
}

/// The parts with the header's `format_version` set to `version`.
pub open spec fn with_format_version(parts: Seq<JsonModel>, version: u64) -> Seq<JsonModel> {
    match parts[0] {
        JsonModel::Object(h) => parts.update(
            0,
            JsonModel::Object(
                model_set_key(h, "format_version"@, JsonModel::Number(JsonNumber::PosInt(version))),
            ),
        ),
        _ => parts,
    }
}

/// A level file brought to the current level format.
pub open spec fn upgrade_model(level: JsonModel) -> Result<JsonModel, LevelUpgradeError> {
    match format_version_model(level) {
        Err(err) => Err(err),
        Ok(version) => {
            let parts = level->Array_0;
            if version < CURRENT_LEVEL_FORMAT_VERSION {
                match upgrade_parts_1_to_2_model(parts) {
                    Err(err) => Err(err),
                    Ok(parts2) => Ok(
                        JsonModel::Array(with_format_version(parts2, CURRENT_LEVEL_FORMAT_VERSION)),
                    ),
                }
            } else {
                Ok(JsonModel::Array(with_format_version(parts, version)))
            }
        },
    }
}

proof fn lemma_with_format_version(parts: Seq<JsonModel>, version: u64)
    requires
        parts.len() > 0,
        parts[0] is Object,
    ensures
        with_format_version(parts, version).len() == parts.len(),
        with_format_version(parts, version)[0] is Object,
        model_lookup(with_format_version(parts, version)[0]->Object_0, "format_version"@) == Some(
            JsonModel::Number(JsonNumber::PosInt(version)),
        ),
        with_format_version(with_format_version(parts, version), version) == with_format_version(
            parts,
            version,
        ),
{
    let h = parts[0]->Object_0;
    let v = JsonModel::Number(JsonNumber::PosInt(version));
    lemma_set_key_lookup(h, "format_version"@, v);
    let p2 = with_format_version(parts, version);
    assert(p2.update(0, JsonModel::Object(model_set_key(model_set_key(h, "format_version"@, v), "format_version"@, v))) =~= p2);
}

/// Upgrading reaches a fixed point: a level file that was upgraded is left as it is by a second
/// upgrade.
pub proof fn lemma_upgrade_idempotent(level: JsonModel)
    requires
        upgrade_model(level) is Ok,
    ensures
        upgrade_model(upgrade_model(level)->Ok_0) == upgrade_model(level),
{
    let version = format_version_model(level)->Ok_0;
    let parts = level->Array_0;
    let parts2 = if version < CURRENT_LEVEL_FORMAT_VERSION {
        upgrade_parts_1_to_2_model(parts)->Ok_0
    } else {
        parts
    };
    let v2 = if version < CURRENT_LEVEL_FORMAT_VERSION {
        CURRENT_LEVEL_FORMAT_VERSION
    } else {
        version
    };
    assert(parts2.len() == parts.len() && parts2[0] == parts[0]);
    lemma_with_format_version(parts2, v2);
}

/// An upgraded level file declares the current format version, or the version it already had
/// when that one is newer.
pub proof fn lemma_upgrade_format_version(level: JsonModel)
    requires
        upgrade_model(level) is Ok,
    ensures
        format_version_model(upgrade_model(level)->Ok_0) == Ok::<u64, LevelUpgradeError>(
            if format_version_model(level)->Ok_0 < CURRENT_LEVEL_FORMAT_VERSION {
                CURRENT_LEVEL_FORMAT_VERSION
            } else {
                format_version_model(level)->Ok_0
            },
        ),
{
    let version = format_version_model(level)->Ok_0;
    let parts = level->Array_0;
    let parts2 = if version < CURRENT_LEVEL_FORMAT_VERSION {
        upgrade_parts_1_to_2_model(parts)->Ok_0
    } else {
        parts
    };
    let v2 = if version < CURRENT_LEVEL_FORMAT_VERSION {
        CURRENT_LEVEL_FORMAT_VERSION
    } else {
        version
    };
    assert(parts2.len() == parts.len() && parts2[0] == parts[0]);
    lemma_with_format_version(parts2, v2);
}

/// Upgrade a level file to the most recent Yoleck level format
pub fn upgrade_level_file(level: JsonValue) -> (res: Result<JsonValue, LevelUpgradeError>)
    ensures
        match res {
            Ok(r) => upgrade_model(level@) == Ok::<JsonModel, LevelUpgradeError>(r@),
            Err(e) => upgrade_model(level@) == Err::<JsonModel, LevelUpgradeError>(e),
        },
{
    let ghost lm = level@;
    let mut parts = match level {
        JsonValue::Array(parts) => parts,
        _ => return Err(LevelUpgradeError::NotAnArray),
    };
    proof {
        lemma_elements_model(parts);
    }
    if parts.len() == 0 {
        return Err(LevelUpgradeError::EmptyArray);
    }
    let mut format_version: u64 = match &parts[0] {
        JsonValue::Object(h) => {
            proof {
                lemma_members_model(*h);
                lemma_first_key_index(members_model(*h), "format_version"@);
            }
            match find_key(h, "format_version") {
                None => return Err(LevelUpgradeError::MissingFormatVersion),
                Some(i) => match h[i].1.as_u64() {
                    None => return Err(LevelUpgradeError::FormatVersionNotANumber),
                    Some(v) => v,
                },
            }
        },
        _ => return Err(LevelUpgradeError::HeaderNotAnObject),
    };
    assert(format_version_model(lm) == Ok::<u64, LevelUpgradeError>(format_version));
    if format_version < CURRENT_LEVEL_FORMAT_VERSION {
        upgrade_level_file_1_to_2(&mut parts)?;
        format_version = CURRENT_LEVEL_FORMAT_VERSION;
    }
    proof {
        lemma_elements_model(parts);
    }
    let ghost before_header = parts;
    let header = replace_element(&mut parts, 0, JsonValue::Null);
    let new_header = match header {
        JsonValue::Object(mut h) => {
            set_key(&mut h, "format_version", JsonValue::Number(JsonNumber::PosInt(format_version)));
            JsonValue::Object(h)
        },
        other => other,
    };
    replace_element(&mut parts, 0, new_header);
    assert(elements_model(parts) =~= with_format_version(elements_model(before_header), format_version));
    Ok(JsonValue::Array(parts))
}

/// Whether an entity is an array with a second element (its data).
pub open spec fn has_data_slot(e: JsonValue) -> bool {
    match e {
        JsonValue::Array(a) => a.len() > 1,
        _ => false,
    }
}

/// The type name of an entity `[header, data]`, read at the pointer `/0/type`.
fn entity_type(e: &JsonValue) -> (r: Result<String, LevelUpgradeError>)
    ensures
        match r {
            Ok(t) => entity_type_model(e@) == Ok::<Seq<char>, LevelUpgradeError>(t@),
            Err(err) => entity_type_model(e@) == Err::<Seq<char>, LevelUpgradeError>(err),
        },
{
    let head: &JsonValue = match e {
        JsonValue::Array(a) => {
            proof {
                lemma_elements_model(*a);
            }
            if a.len() > 0 {
                &a[0]
            } else {
                return Err(LevelUpgradeError::EntityMissingType);
            }
        },
        JsonValue::Object(o) => {
            proof {
                lemma_members_model(*o);
                lemma_first_key_index(members_model(*o), "0"@);
            }
            match find_key(o, "0") {
                Some(i) => &o[i].1,
                None => return Err(LevelUpgradeError::EntityMissingType),
            }
        },
        _ => return Err(LevelUpgradeError::EntityMissingType),
    };
    assert(pointer_step_zero(e@) == Some(head@));
    match head {
        JsonValue::Object(o) => {
            proof {
                lemma_members_model(*o);
                lemma_first_key_index(members_model(*o), "type"@);
            }
            match find_key(o, "type") {
                Some(i) => match &o[i].1 {
                    JsonValue::String(s) => Ok(s.clone()),
                    _ => Err(LevelUpgradeError::EntityTypeNotAString),
                },
                None => Err(LevelUpgradeError::EntityMissingType),
            }
        },
        _ => Err(LevelUpgradeError::EntityMissingType),
    }
}

/// Checks one entity: gives its type name when it can be upgraded.
fn check_entity(e: &JsonValue) -> (r: Result<String, LevelUpgradeError>)
    ensures
        match r {
            Ok(t) => upgrade_entity_model(e@) is Ok && entity_type_model(e@) == Ok::<
                Seq<char>,
                LevelUpgradeError,
            >(t@) && has_data_slot(*e),
            Err(err) => upgrade_entity_model(e@) == Err::<JsonModel, LevelUpgradeError>(err),
        },
{
    let t = entity_type(e)?;
    match e {
        JsonValue::Array(a) => {
            proof {
                lemma_elements_model(*a);
            }
            if a.len() > 1 {
                Ok(t)
            } else {
                Err(LevelUpgradeError::EntityMissingData)
            }
        },
        _ => Err(LevelUpgradeError::EntityMissingData),
    }
}

/// Moves the data of an entity under the key `t`.
fn upgrade_entity(e: JsonValue, t: String) -> (r: JsonValue)
    requires
        has_data_slot(e),
        entity_type_model(e@) == Ok::<Seq<char>, LevelUpgradeError>(t@),
    ensures
        upgrade_entity_model(e@) == Ok::<JsonModel, LevelUpgradeError>(r@),
{
    match e {
        JsonValue::Array(mut a) => {
            proof {
                lemma_elements_model(a);
            }
            let ghost a0 = a;
            let data = replace_element(&mut a, 1, JsonValue::Null);
            let obj = single_member_object(t, data);
            replace_element(&mut a, 1, obj);
            proof {
                assert(elements_model(a) =~= elements_model(a0).update(
                    1,
                    JsonModel::Object(seq![(t@, elements_model(a0)[1])]),
                ));
            }
            JsonValue::Array(a)
        },
        other => other,
    }
}

/// The entity `[header, data, ...]` of type `t` with its data moved under the key `t`.
pub open spec fn data_moved_under_type(e: JsonModel, t: Seq<char>) -> JsonModel {
    JsonModel::Array(e->Array_0.update(1, JsonModel::Object(seq![(t, e->Array_0[1])])))
}

/// Upgrading a list of entities from format 1 succeeds exactly when every entity upgrades, and
/// then upgrades each of them, in place: the `i`-th entity of the result is the `i`-th one given,
/// an array with a type at `/0/type` and data at index 1, whose data is moved under its type.
pub proof fn lemma_upgrade_entities_each(es: Seq<JsonModel>)
    ensures
        upgrade_entities_model(es) is Ok <==> forall|i: int|
            0 <= i < es.len() ==> #[trigger] upgrade_entity_model(es[i]) is Ok,
        upgrade_entities_model(es) is Ok ==> {
            let r = upgrade_entities_model(es)->Ok_0;
            &&& r.len() == es.len()
            &&& forall|i: int|
                0 <= i < es.len() ==> {
                    &&& #[trigger] es[i] is Array
                    &&& es[i]->Array_0.len() > 1
                    &&& entity_type_model(es[i]) is Ok
                    &&& r[i] == data_moved_under_type(es[i], entity_type_model(es[i])->Ok_0)
                }
        },
    decreases es.len(),
{
    if es.len() > 0 {
        let t = es.drop_last();
        let n = es.len() - 1;
        lemma_upgrade_entities_each(t);
        assert(es.last() == es[n]);
        assert forall|i: int| 0 <= i < n implies #[trigger] t[i] == es[i] by {}
        if upgrade_entities_model(es) is Ok {
            let r = upgrade_entities_model(es)->Ok_0;
            let p = upgrade_entities_model(t)->Ok_0;
            assert forall|i: int| 0 <= i < es.len() implies #[trigger] upgrade_entity_model(es[i]) is Ok by {
                if i < n {
                    assert(upgrade_entity_model(t[i]) is Ok);
                }
            }
            assert forall|i: int| 0 <= i < es.len() implies {
                &&& #[trigger] es[i] is Array
                &&& es[i]->Array_0.len() > 1
                &&& entity_type_model(es[i]) is Ok
                &&& r[i] == data_moved_under_type(es[i], entity_type_model(es[i])->Ok_0)
            } by {
                if i < n {
                    assert(t[i] == es[i]);
                    assert(r[i] == p[i]);
                }
            }
        } else {
            if upgrade_entities_model(t) is Ok {
                assert(upgrade_entity_model(es[n]) is Err);
            } else {
                let k = choose|i: int| 0 <= i < t.len() && !(#[trigger] upgrade_entity_model(t[i]) is Ok);
                assert(t[k] == es[k]);
                assert(!(upgrade_entity_model(es[k]) is Ok));
            }
        }
    }
}

/// Upgrading a level file of format 1: when it succeeds, every entity of the entity list (the
/// third part) has its data moved under its type name, in place, and no entity is left out or
/// added; the level data (the second part) is kept, and the file declares the current format.
pub proof fn lemma_upgrade_from_format_1(level: JsonModel)
    requires
        format_version_model(level) is Ok,
        format_version_model(level)->Ok_0 < CURRENT_LEVEL_FORMAT_VERSION,
        upgrade_model(level) is Ok,
    ensures
        ({
            let parts = level->Array_0;
            let es = parts[2]->Array_0;
            let out = upgrade_model(level)->Ok_0;
            &&& out is Array
            &&& out->Array_0.len() == parts.len()
            &&& parts.len() >= 3
            &&& out->Array_0[1] == parts[1]
            &&& parts[2] is Array
            &&& out->Array_0[2] is Array
            &&& out->Array_0[2]->Array_0.len() == es.len()
            &&& forall|i: int|
                0 <= i < es.len() ==> (#[trigger] out->Array_0[2]->Array_0[i]) == data_moved_under_type(
                    es[i],
                    entity_type_model(es[i])->Ok_0,
                )
            &&& format_version_model(out) == Ok::<u64, LevelUpgradeError>(CURRENT_LEVEL_FORMAT_VERSION)
        }),
{
    let parts = level->Array_0;
    let es = parts[2]->Array_0;
    lemma_upgrade_entities_each(es);
    let parts2 = upgrade_parts_1_to_2_model(parts)->Ok_0;
    assert(parts2.len() == parts.len() && parts2[0] == parts[0]);
    lemma_with_format_version(parts2, CURRENT_LEVEL_FORMAT_VERSION);
    lemma_upgrade_format_version(level);
}

proof fn lemma_entities_error_persists(es: Seq<JsonModel>, n: int)
    requires
        0 <= n <= es.len(),
        upgrade_entities_model(es.take(n)) is Err,
    ensures
        upgrade_entities_model(es) == upgrade_entities_model(es.take(n)),
    decreases es.len() - n,
{
    if n < es.len() {
        assert(es.take(n + 1).drop_last() =~= es.take(n));
        lemma_entities_error_persists(es, n + 1);
    } else {
        assert(es.take(n) =~= es);
    }
}

fn upgrade_level_file_1_to_2(parts: &mut Vec<JsonValue>) -> (r: Result<(), LevelUpgradeError>)
    ensures
        match r {
            Ok(()) => upgrade_parts_1_to_2_model(elements_model(*old(parts))) == Ok::<
                Seq<JsonModel>,
                LevelUpgradeError,
            >(elements_model(*final(parts))),
            Err(e) => upgrade_parts_1_to_2_model(elements_model(*old(parts))) == Err::<
                Seq<JsonModel>,
                LevelUpgradeError,
            >(e) && final(parts)@ == old(parts)@,
        },
{
    proof {
        lemma_elements_model(*parts);
    }
    if parts.len() < 3 {
        return Err(LevelUpgradeError::MissingEntityList);
    }
    let ghost pm = elements_model(*parts);
    let n: usize = match &parts[2] {
        JsonValue::Array(es) => es.len(),
        _ => return Err(LevelUpgradeError::EntityListNotAnArray),
    };
    let ghost es0: Vec<JsonValue> = parts@[2]->Array_0;
    let ghost em = elements_model(es0);
    proof {
        assert(pm[2] == json_model(parts@[2]));
        lemma_elements_model(es0);
        assert(em.take(0) =~= Seq::<JsonModel>::empty());
    }
    // Check every entity first, so that a failure leaves the parts untouched.
    let mut types: Vec<String> = Vec::new();
    let mut i: usize = 0;
    while i < n
        invariant
            i <= n,
            n == es0.len(),
            parts@ == old(parts)@,
            parts.len() >= 3,
            pm == elements_model(*parts),
            pm.len() == parts.len(),
            pm[2] == JsonModel::Array(em),
            parts@[2] == JsonValue::Array(es0),
            em == elements_model(es0),
            em.len() == n,
            forall|j: int| 0 <= j < n ==> #[trigger] em[j] == json_model(es0[j]),
            types.len() == i,
            upgrade_entities_model(em.take(i as int)) is Ok,
            forall|j: int|
                0 <= j < i ==> entity_type_model(#[trigger] em[j]) == Ok::<
                    Seq<char>,
                    LevelUpgradeError,
                >(types@[j]@) && has_data_slot(es0[j]),
        decreases n - i,
    {
        let e: &JsonValue = match &parts[2] {
            JsonValue::Array(es) => &es[i],
            _ => {
                assert(false);
                return Err(LevelUpgradeError::EntityListNotAnArray);
            },
        };
        assert(em.take(i + 1).drop_last() =~= em.take(i as int));
        match check_entity(e) {
            Ok(t) => {
                types.push(t);
            },
            Err(err) => {
                proof {
                    assert(e@ == em[i as int]);
                    assert(em.take(i + 1).last() == em[i as int]);
                    assert(upgrade_entities_model(em.take(i + 1)) == Err::<Seq<JsonModel>, LevelUpgradeError>(err));
                    lemma_entities_error_persists(em, i + 1);
                }
                return Err(err);
            },
        }
        i = i + 1;
    }
    assert(em.take(n as int) =~= em);
    // Every entity passed: move the data of each under its type name.
    let ents = replace_element(parts, 2, JsonValue::Null);
    let mut es = match ents {
        JsonValue::Array(es) => es,
        _ => Vec::new(),
    };
    let mut out: Vec<JsonValue> = Vec::new();
    let mut k: usize = 0;
    proof {
        lemma_elements_model(out);
        assert(elements_model(out) =~= Seq::<JsonModel>::empty());
        assert(es@ =~= es0@.skip(0));
    }
    while k < n
        invariant
            k <= n,
            n == es0.len(),
            types.len() == n,
            em == elements_model(es0),
            em.len() == n,
            forall|j: int| 0 <= j < n ==> #[trigger] em[j] == json_model(es0[j]),
            forall|j: int|
                0 <= j < n ==> entity_type_model(#[trigger] em[j]) == Ok::<
                    Seq<char>,
                    LevelUpgradeError,
                >(types@[j]@) && has_data_slot(es0[j]),
            es@ == es0@.skip(k as int),
            upgrade_entities_model(em.take(k as int)) == Ok::<Seq<JsonModel>, LevelUpgradeError>(
                elements_model(out),
            ),
        decreases n - k,
    {
        let e = es.remove(0);
        assert(e == es0[k as int]);
        assert(entity_type_model(em[k as int]) == Ok::<Seq<char>, LevelUpgradeError>(types@[k as int]@));
        let t = types[k].clone();
        let e2 = upgrade_entity(e, t);
        let ghost out0 = out;
        out.push(e2);
        proof {
            assert(es@ =~= es0@.skip(k + 1));
            assert(em.take(k + 1).drop_last() =~= em.take(k as int));
            lemma_elements_model(out0);
            lemma_elements_model(out);
            assert(elements_model(out) =~= elements_model(out0).push(json_model(e2)));
        }
        k = k + 1;
    }
    assert(em.take(n as int) =~= em);
    let ghost before = *parts;
    replace_element(parts, 2, JsonValue::Array(out));
    proof {
        assert(elements_model(before) =~= pm.update(2, JsonModel::Null));
        assert(elements_model(*parts) =~= pm.update(2, JsonModel::Array(elements_model(out))));
    }
    Ok(())
}

} // verus!
