use vstd::prelude::*;

use crate::editor::YoleckEditorState;
use crate::entity_uuid::{new_random_uuid, YoleckUuidRegistry};
use crate::json::{
    keys_unique, lemma_first_key_index, lemma_members_model, lemma_set_key_keeps_keys_unique,
    members_model, model_lookup, model_set_key, model_take_key, set_key, take_key, JsonModel,
    JsonValue,
};
use crate::populating::PopulateReason;
use crate::specs_registration::{
    last_type_index, spec_on_init_applies, strings_view, YoleckEntityConstructionSpecs,
    YoleckOnInitCondition,
};
use crate::{YoleckEntityLifecycleStatus, YoleckManaged};

verus! {

/// Used by Yoleck to determine how to handle the entity.
pub struct YoleckEntryHeader {
    /// The entity's type (the `type` field of the file).
    pub entity_type: String,
    /// A name to display near the entity in the entities list.
    ///
    /// This is for level editors' convenience only - it will not be used in the games.
    pub name: String,
    /// A persistable way to identify the specific entity.
    ///
    /// Will be set automatically if the entity type was defined with `with_uuid`.
    pub uuid: Option<u128>,
}

impl YoleckEntryHeader {
    pub fn duplicate(&self) -> (r: Self)
        ensures
            r.entity_type@ == self.entity_type@,
            r.name@ == self.name@,
            r.uuid == self.uuid,
    {
        YoleckEntryHeader {
            entity_type: self.entity_type.clone(),
            name: self.name.clone(),
            uuid: self.uuid,
        }
    }
}

/// An entry for a Yoleck entity, as it appears in level files.
pub struct YoleckRawEntry {
    pub header: YoleckEntryHeader,
    pub data: JsonValue,
}

impl YoleckRawEntry {
    pub fn duplicate(&self) -> (r: Self)
        ensures
            r.header.entity_type@ == self.header.entity_type@,
            r.header.name@ == self.header.name@,
            r.header.uuid == self.header.uuid,
            r.data@ == self.data@,
    {
        YoleckRawEntry { header: self.header.duplicate(), data: self.data.deep_clone() }
    }
}

/// Internal Yoleck metadata for a level file.
pub struct YoleckRawLevelHeader {
    pub format_version: usize,
    pub app_format_version: usize,
}

impl YoleckRawLevelHeader {
    pub fn new(format_version: usize, app_format_version: usize) -> (r: Self)
        ensures
            r.format_version == format_version,
            r.app_format_version == app_format_version,
    {
        YoleckRawLevelHeader { format_version, app_format_version }
    }

    pub fn format_version(&self) -> (r: usize)
        ensures
            r == self.format_version,
    {
        self.format_version
    }
}

/// The level format version that [`YoleckRawLevel::new`] writes.
pub const LEVEL_FORMAT_VERSION: usize = 2;

/// Represents a level file: its header, the level data and the entities.
pub struct YoleckRawLevel(pub(crate) YoleckRawLevelHeader, JsonValue, pub(crate) Vec<YoleckRawEntry>);

impl YoleckRawLevel {
    pub closed spec fn spec_header(&self) -> YoleckRawLevelHeader {
        self.0
    }

    pub closed spec fn spec_level_data(&self) -> JsonModel {
        self.1@
    }

    pub closed spec fn spec_entries(&self) -> Seq<YoleckRawEntry> {
        self.2@
    }

    pub fn new(app_format_version: usize, entries: Vec<YoleckRawEntry>) -> (r: Self)
        ensures
            r.spec_header().format_version == LEVEL_FORMAT_VERSION,
            r.spec_header().app_format_version == app_format_version,
            r.spec_level_data() == JsonModel::Object(Seq::empty()),
            r.spec_entries() == entries@,
    {
        YoleckRawLevel(
            YoleckRawLevelHeader { format_version: LEVEL_FORMAT_VERSION, app_format_version },
            JsonValue::empty_object(),
            entries,
        )
    }

    /// A level from its three parts, as read from a file.
    pub fn from_parts(
        header: YoleckRawLevelHeader,
        level_data: JsonValue,
        entries: Vec<YoleckRawEntry>,
    ) -> (r: Self)
        ensures
            r.spec_header() == header,
            r.spec_level_data() == level_data@,
            r.spec_entries() == entries@,
    {
        YoleckRawLevel(header, level_data, entries)
    }

    pub fn header(&self) -> (r: &YoleckRawLevelHeader)
        ensures
            *r == self.spec_header(),
    {
        &self.0
    }

    pub fn level_data(&self) -> (r: &JsonValue)
        ensures
            r@ == self.spec_level_data(),
    {
        &self.1
    }

    pub fn entries(&self) -> (r: &[YoleckRawEntry])
        ensures
            r@ == self.spec_entries(),
    {
        self.2.as_slice()
    }

    pub fn into_entries(self) -> (r: Vec<YoleckRawEntry>)
        ensures
            r@ == self.spec_entries(),
    {
        self.2
    }

    /// Mark the level as written with app format version `v`.
    pub fn set_app_format_version(&mut self, v: usize)
        ensures
            final(self).spec_header().format_version == old(self).spec_header().format_version,
            final(self).spec_header().app_format_version == v,
            final(self).spec_level_data() == old(self).spec_level_data(),
            final(self).spec_entries() == old(self).spec_entries(),
    {
        self.0.app_format_version = v;
    }

    /// Replace the data of the entity at `i`, keeping its header.
    pub fn set_entry_data(&mut self, i: usize, data: JsonValue)
        requires
            i < old(self).spec_entries().len(),
        ensures
            final(self).spec_header() == old(self).spec_header(),
            final(self).spec_level_data() == old(self).spec_level_data(),
            final(self).spec_entries() == old(self).spec_entries().update(
                i as int,
                YoleckRawEntry { header: old(self).spec_entries()[i as int].header, data },
            ),
    {
        let mut e = self.2.remove(i);
        e.data = data;
        self.2.insert(i, e);
        assert(self.2@ =~= old(self).2@.update(
            i as int,
            YoleckRawEntry { header: old(self).2@[i as int].header, data },
        ));
    }

    /// A copy of the level.
    pub fn duplicate(&self) -> (r: Self)
        ensures
            r.spec_header() == self.spec_header(),
            r.spec_level_data() == self.spec_level_data(),
            r.spec_entries().len() == self.spec_entries().len(),
            forall|i: int|
                0 <= i < self.spec_entries().len() ==> entries_match(
                    #[trigger] r.spec_entries()[i],
                    self.spec_entries()[i],
                ),
    {
        let entries = duplicate_entries(&self.2);
        YoleckRawLevel(
            YoleckRawLevelHeader {
                format_version: self.0.format_version,
                app_format_version: self.0.app_format_version,
            },
            self.1.deep_clone(),
            entries,
        )
    }
}

/// Two entries hold the same header and data.
pub open spec fn entries_match(a: YoleckRawEntry, b: YoleckRawEntry) -> bool {
    &&& a.header.entity_type@ == b.header.entity_type@
    &&& a.header.name@ == b.header.name@
    &&& a.header.uuid == b.header.uuid
    &&& a.data@ == b.data@
}

/// Copies of all the entries, in order: what gets spawned when a level is loaded.
pub fn duplicate_entries(entries: &Vec<YoleckRawEntry>) -> (r: Vec<YoleckRawEntry>)
    ensures
        r.len() == entries.len(),
        forall|i: int| 0 <= i < entries.len() ==> entries_match(#[trigger] r@[i], entries@[i]),
{
    let mut r: Vec<YoleckRawEntry> = Vec::new();
    let mut i: usize = 0;
    while i < entries.len()
        invariant
            i <= entries.len(),
            r.len() == i,
            forall|j: int| 0 <= j < i ==> entries_match(#[trigger] r@[j], entries@[j]),
        decreases entries.len() - i,
    {
        r.push(entries[i].duplicate());
        i = i + 1;
    }
    r
}

/// The populate reason for an entity with `status`, if it needs populating.
pub open spec fn populate_reason_for(
    status: YoleckEntityLifecycleStatus,
    state: YoleckEditorState,
) -> Option<PopulateReason> {
    match status {
        YoleckEntityLifecycleStatus::Synchronized => None,
        YoleckEntityLifecycleStatus::JustCreated => Some(
            match state {
                YoleckEditorState::EditorActive => PopulateReason::EditorInit,
                YoleckEditorState::GameActive => PopulateReason::RealGame,
            },
        ),
        YoleckEntityLifecycleStatus::JustChanged => Some(PopulateReason::EditorUpdate),
    }
}

/// The entities to populate, in order, with their reasons.
pub open spec fn entities_to_populate(
    statuses: Seq<(u64, YoleckEntityLifecycleStatus)>,
    state: YoleckEditorState,
) -> Seq<(u64, PopulateReason)>
    decreases statuses.len(),
{
    if statuses.len() == 0 {
        Seq::empty()
    } else {
        let prefix = entities_to_populate(statuses.drop_last(), state);
        match populate_reason_for(statuses.last().1, state) {
            Some(reason) => prefix.push((statuses.last().0, reason)),
            None => prefix,
        }
    }
}

/// Decides which managed entities get populated this frame, and marks them all synchronized.
///
/// Gives back the entities to populate with their reasons, and whether an entity changed in the
/// editor (so that the level needs saving).
pub fn yoleck_prepare_populate_schedule(
    statuses: &mut Vec<(u64, YoleckEntityLifecycleStatus)>,
    editor_state: YoleckEditorState,
) -> (r: (Vec<(u64, PopulateReason)>, bool))
    ensures
        r.0@ == entities_to_populate(old(statuses)@, editor_state),
        r.1 == exists|i: int|
            0 <= i < old(statuses)@.len() && (#[trigger] old(statuses)@[i]).1
                == YoleckEntityLifecycleStatus::JustChanged,
        final(statuses)@.len() == old(statuses)@.len(),
        forall|i: int|
            0 <= i < final(statuses)@.len() ==> (#[trigger] final(statuses)@[i]).0 == old(
                statuses,
            )@[i].0 && final(statuses)@[i].1 == YoleckEntityLifecycleStatus::Synchronized,
{
    let ghost orig = statuses@;
    let mut to_populate: Vec<(u64, PopulateReason)> = Vec::new();
    let mut level_needs_saving = false;
    let mut i: usize = 0;
    assert(orig.take(0) =~= Seq::<(u64, YoleckEntityLifecycleStatus)>::empty());
    while i < statuses.len()
        invariant
            i <= statuses.len(),
            statuses@.len() == orig.len(),
            forall|j: int| i <= j < orig.len() ==> #[trigger] statuses@[j] == orig[j],
            forall|j: int|
                0 <= j < i ==> (#[trigger] statuses@[j]).0 == orig[j].0 && statuses@[j].1
                    == YoleckEntityLifecycleStatus::Synchronized,
            to_populate@ == entities_to_populate(orig.take(i as int), editor_state),
            level_needs_saving == exists|j: int|
                0 <= j < i && (#[trigger] orig[j]).1 == YoleckEntityLifecycleStatus::JustChanged,
        decreases statuses.len() - i,
    {
        let (entity, status) = statuses[i];
        assert(orig.take(i + 1).drop_last() =~= orig.take(i as int));
        match status {
            YoleckEntityLifecycleStatus::Synchronized => {},
            YoleckEntityLifecycleStatus::JustCreated => {
                let reason = match editor_state {
                    YoleckEditorState::EditorActive => PopulateReason::EditorInit,
                    YoleckEditorState::GameActive => PopulateReason::RealGame,
                };
                to_populate.push((entity, reason));
            },
            YoleckEntityLifecycleStatus::JustChanged => {
                to_populate.push((entity, PopulateReason::EditorUpdate));
                level_needs_saving = true;
            },
        }
        statuses.set(i, (entity, YoleckEntityLifecycleStatus::Synchronized));
        i = i + 1;
    }
    assert(orig.take(i as int) =~= orig);
    (to_populate, level_needs_saving)
}

/// The entities to despawn when levels are unloaded: those that belong to one of the removed
/// levels, in the order given. `owned` pairs each entity with the level it belongs to.
pub fn entities_to_despawn(removed_levels: &Vec<u64>, owned: &Vec<(u64, u64)>) -> (r: Vec<u64>)
    ensures
        r@ == owned@.filter(|p: (u64, u64)| removed_levels@.contains(p.1)).map_values(
            |p: (u64, u64)| p.0,
        ),
{
    let ghost f = |p: (u64, u64)| removed_levels@.contains(p.1);
    let ghost g = |p: (u64, u64)| p.0;
    let mut r: Vec<u64> = Vec::new();
    let mut i: usize = 0;
    while i < owned.len()
        invariant
            i <= owned.len(),
            f == (|p: (u64, u64)| removed_levels@.contains(p.1)),
            g == (|p: (u64, u64)| p.0),
            r@ == owned@.take(i as int).filter(f).map_values(g),
        decreases owned.len() - i,
    {
        let (entity, level) = owned[i];
        let ghost before = r@;
        if contains_u64(removed_levels, level) {
            r.push(entity);
        }
        proof {
            let x = owned@[i as int];
            assert(x.0 == entity && x.1 == level);
            assert(owned@.take(i + 1) =~= owned@.take(i as int).push(x));
            owned@.take(i as int).lemma_filter_push(x, f);
            let fl = owned@.take(i as int).filter(f);
            if f(x) {
                assert(r@ == before.push(entity));
                assert(fl.push(x).map_values(g) =~= fl.map_values(g).push(g(x)));
            } else {
                assert(r@ == before);
            }
        }
        i = i + 1;
    }
    assert(owned@.take(i as int) =~= owned@);
    r
}

/// Whether `v` holds `x`.
pub fn contains_u64(v: &Vec<u64>, x: u64) -> (r: bool)
    ensures
        r == v@.contains(x),
{
    let mut i: usize = 0;
    while i < v.len()
        invariant
            i <= v.len(),
            forall|j: int| 0 <= j < i ==> v@[j] != x,
        decreases v.len() - i,
    {
        if v[i] == x {
            return true;
        }
        i = i + 1;
    }
    false
}

/// The data of the components named by `keys`, taken one after the other out of `data`: each
/// key gets what [`model_take_key`] gives on the data as the earlier keys left it.
pub open spec fn take_components_model(data: JsonModel, keys: Seq<Seq<char>>) -> (
    Seq<(Seq<char>, Option<JsonModel>)>,
    JsonModel,
)
    decreases keys.len(),
{
    if keys.len() == 0 {
        (Seq::empty(), data)
    } else {
        let (taken, rest) = take_components_model(data, keys.drop_last());
        let (v, rest2) = model_take_key(rest, keys.last());
        (taken.push((keys.last(), v)), rest2)
    }
}

/// The keys of an entity type's components that have handlers, in the type's order.
pub open spec fn handled_component_keys(
    specs: YoleckEntityConstructionSpecs,
    components: Seq<Seq<char>>,
) -> Seq<Seq<char>> {
    components.filter(|k: Seq<char>| strings_view(specs.component_handlers@).contains(k))
}

/// What Yoleck does with a raw entry of a loaded level.
pub struct RawEntryProcessing {
    /// The managed entity to insert.
    pub managed: YoleckManaged,
    /// Whether the entry's type is registered.
    pub type_registered: bool,
    /// The UUID component to insert, when the type is defined with a UUID.
    pub uuid: Option<u128>,
    /// Each component of the type that has a handler, with its data from the file (when there
    /// was any), in the type's order; the handlers build the components out of these.
    pub components: Vec<(String, Option<JsonValue>)>,
    /// The indices of the type's on-init bundles that go into the entity.
    pub on_init: Vec<usize>,
}

/// Turns the raw entry of `entity` into a managed entity: registers its UUID (a fresh one when
/// the file has none) if its type has UUIDs, takes the data of each of the type's components out
/// of the entry's data, and picks the on-init bundles that apply in `editor_state`.
pub fn yoleck_process_raw_entry(
    entry: YoleckRawEntry,
    entity: u64,
    construction_specs: &YoleckEntityConstructionSpecs,
    editor_state: YoleckEditorState,
    uuid_registry: &mut YoleckUuidRegistry,
) -> (r: RawEntryProcessing)
    ensures
        r.managed@.name == entry.header.name@,
        r.managed@.entity_type == entry.header.entity_type@,
        r.managed@.lifecycle_status == YoleckEntityLifecycleStatus::JustCreated,
        r.managed@.components_data.len() == 0,
        r.type_registered == (last_type_index(
            construction_specs.entity_types@,
            entry.header.entity_type@,
        ) >= 0),
        !r.type_registered ==> r.uuid is None && final(uuid_registry)@ == old(uuid_registry)@
            && r.components@.len() == 0 && r.on_init@.len() == 0,
        r.type_registered ==> ({
            let info = construction_specs.entity_types@[last_type_index(
                construction_specs.entity_types@,
                entry.header.entity_type@,
            )];
            let taken = take_components_model(
                entry.data@,
                handled_component_keys(*construction_specs, strings_view(info.components@)),
            ).0;
            &&& info.has_uuid ==> (r.uuid is Some && final(uuid_registry)@ == old(uuid_registry)@.insert(
                r.uuid->Some_0,
                entity,
            ) && match entry.header.uuid {
                Some(u) => r.uuid->Some_0 == u,
                None => (r.uuid->Some_0 >> 76u128) & 0xf == 4 && (r.uuid->Some_0 >> 62u128) & 0x3 == 2,
            })
            &&& !info.has_uuid ==> r.uuid is None && final(uuid_registry)@ == old(uuid_registry)@
            &&& r.components@.len() == taken.len()
            &&& forall|i: int|
                0 <= i < taken.len() ==> (#[trigger] r.components@[i]).0@ == taken[i].0 && match r.components@[i].1 {
                    Some(v) => taken[i].1 == Some(v@),
                    None => taken[i].1 is None,
                }
            &&& forall|k: int| 0 <= k < r.on_init@.len() ==> r.on_init@[k] < info.on_init@.len()
            &&& forall|k: int, l: int| 0 <= k < l < r.on_init@.len() ==> r.on_init@[k] < r.on_init@[l]
            &&& forall|j: int|
                0 <= j < info.on_init@.len() ==> (r.on_init@.contains(j as usize) <==> spec_on_init_applies(
                    #[trigger] info.on_init@[j],
                    editor_state,
                ))
            &&& forall|k: int|
                0 <= k < r.on_init@.len() ==> {
                    &&& editor_state == YoleckEditorState::EditorActive ==> info.on_init@[
                        #[trigger] r.on_init@[k] as int] != YoleckOnInitCondition::DuringGame
                    &&& editor_state == YoleckEditorState::GameActive ==> info.on_init@[
                        r.on_init@[k] as int] != YoleckOnInitCondition::DuringEditor
                }
            &&& forall|j: int|
                0 <= j < info.on_init@.len() && #[trigger] info.on_init@[j]
                    == YoleckOnInitCondition::Always ==> r.on_init@.contains(j as usize)
        }),
{
    let YoleckRawEntry { header, mut data } = entry;
    let mut components: Vec<(String, Option<JsonValue>)> = Vec::new();
    let mut on_init: Vec<usize> = Vec::new();
    let mut uuid: Option<u128> = None;
    let type_registered;
    match construction_specs.get_entity_type_info(header.entity_type.as_str()) {
        Some(info) => {
            type_registered = true;
            if info.has_uuid {
                let u = match header.uuid {
                    Some(u) => u,
                    None => new_random_uuid(),
                };
                uuid_registry.insert(u, entity);
                uuid = Some(u);
            }
            let ghost data0 = data@;
            let ghost comps = strings_view(info.components@);
            let ghost handled = |k: Seq<char>| strings_view(construction_specs.component_handlers@).contains(k);
            let mut i: usize = 0;
            assert(comps.take(0).filter(handled) =~= Seq::<Seq<char>>::empty());
            assert(take_components_model(data0, Seq::empty()).0 =~= Seq::empty());
            while i < info.components.len()
                invariant
                    i <= info.components.len(),
                    comps == strings_view(info.components@),
                    handled == (|k: Seq<char>| strings_view(construction_specs.component_handlers@).contains(k)),
                    ({
                        let t = take_components_model(data0, comps.take(i as int).filter(handled));
                        &&& t.1 == data@
                        &&& components@.len() == t.0.len()
                        &&& forall|j: int|
                            0 <= j < t.0.len() ==> (#[trigger] components@[j]).0@ == t.0[j].0 && match components@[j].1 {
                                Some(v) => t.0[j].1 == Some(v@),
                                None => t.0[j].1 is None,
                            }
                    }),
                decreases info.components.len() - i,
            {
                let ghost before = comps.take(i as int).filter(handled);
                let ghost t0 = take_components_model(data0, before);
                let ghost comps_before = components@;
                proof {
                    assert(comps.take(i + 1) =~= comps.take(i as int).push(comps[i as int]));
                    comps.take(i as int).lemma_filter_push(comps[i as int], handled);
                }
                let key = info.components[i].as_str();
                assert(key@ == comps[i as int]);
                if construction_specs.has_component_handler(key) {
                    let taken = take_key(&mut data, key);
                    let ghost after = before.push(comps[i as int]);
                    assert(after.drop_last() =~= before);
                    components.push((info.components[i].clone(), taken));
                    proof {
                        let t1 = take_components_model(data0, after);
                        assert(after.last() == comps[i as int]);
                        assert(t1.1 == data@);
                        assert(t1.0 == t0.0.push((comps[i as int], match taken { Some(v) => Some(v@), None => None })));
                        assert forall|j: int| 0 <= j < t1.0.len() implies (#[trigger] components@[j]).0@ == t1.0[j].0 && match components@[j].1 {
                                Some(v) => t1.0[j].1 == Some(v@),
                                None => t1.0[j].1 is None,
                            } by {
                            if j < t0.0.len() {
                                assert(components@[j] == comps_before[j]);
                            }
                        }
                    }
                }
                i = i + 1;
            }
            assert(comps.take(i as int) =~= comps);
            let mut k: usize = 0;
            while k < info.on_init.len()
                invariant
                    k <= info.on_init.len(),
                    forall|m: int| 0 <= m < on_init@.len() ==> on_init@[m] < k,
                    forall|m: int, l: int| 0 <= m < l < on_init@.len() ==> on_init@[m] < on_init@[l],
                    forall|j: int|
                        0 <= j < k ==> (on_init@.contains(j as usize) <==> spec_on_init_applies(
                            #[trigger] info.on_init@[j],
                            editor_state,
                        )),
                decreases info.on_init.len() - k,
            {
                let ghost before = on_init@;
                let applies = info.on_init[k].applies(editor_state);
                if applies {
                    on_init.push(k);
                }
                proof {
                    assert forall|j: int|
                        0 <= j < k + 1 implies (on_init@.contains(j as usize) <==> spec_on_init_applies(
                        #[trigger] info.on_init@[j],
                        editor_state,
                    )) by {
                        if applies {
                            assert(on_init@ == before.push(k));
                            if on_init@.contains(j as usize) && j < k {
                                let m = choose|m: int| 0 <= m < on_init@.len() && on_init@[m] == j as usize;
                                assert(before[m] == j as usize);
                            }
                            if j < k && before.contains(j as usize) {
                                let m = choose|m: int| 0 <= m < before.len() && before[m] == j as usize;
                                assert(on_init@[m] == j as usize);
                            }
                            if j == k {
                                assert(on_init@[before.len() as int] == k);
                            }
                        } else {
                            if j == k && on_init@.contains(j as usize) {
                                let m = choose|m: int| 0 <= m < on_init@.len() && on_init@[m] == j as usize;
                            }
                        }
                    }
                }
                k = k + 1;
            }
            proof {
                crate::specs_registration::lemma_on_init_conditions();
                assert forall|m: int| 0 <= m < on_init@.len() implies {
                    &&& editor_state == YoleckEditorState::EditorActive ==> info.on_init@[
                        #[trigger] on_init@[m] as int] != YoleckOnInitCondition::DuringGame
                    &&& editor_state == YoleckEditorState::GameActive ==> info.on_init@[
                        on_init@[m] as int] != YoleckOnInitCondition::DuringEditor
                } by {
                    let j = on_init@[m] as int;
                    assert(on_init@.contains(j as usize));
                    assert(spec_on_init_applies(info.on_init@[j], editor_state));
                }
            }
        },
        None => {
            type_registered = false;
        },
    }
    let managed = YoleckManaged {
        name: header.name,
        entity_type: header.entity_type,
        lifecycle_status: YoleckEntityLifecycleStatus::JustCreated,
        components_data: Vec::new(),
    };
    proof {
        crate::json::lemma_members_model(managed.components_data);
    }
    RawEntryProcessing { managed, type_registered, uuid, components, on_init }
}

/// The members of the data object saved for an entity: for each of the type's component keys,
/// in order, the entity's data for that component when it has any (a key that occurs twice
/// keeps its first place).
pub open spec fn component_data_members(
    keys: Seq<Seq<char>>,
    data: Seq<(Seq<char>, JsonModel)>,
) -> Seq<(Seq<char>, JsonModel)>
    decreases keys.len(),
{
    if keys.len() == 0 {
        Seq::empty()
    } else {
        let prev = component_data_members(keys.drop_last(), data);
        match model_lookup(data, keys.last()) {
            Some(v) => model_set_key(prev, keys.last(), v),
            None => prev,
        }
    }
}

/// The saved data holds exactly the entity's data for the component keys of its type: for every
/// key `k`, looking `k` up in the saved members finds the entity's data for `k` when `k` is one
/// of `keys`, and nothing otherwise; no key is saved twice.
pub proof fn lemma_component_data_members_lookup(
    keys: Seq<Seq<char>>,
    data: Seq<(Seq<char>, JsonModel)>,
)
    ensures
        keys_unique(component_data_members(keys, data)),
        forall|k: Seq<char>|
            #[trigger] model_lookup(component_data_members(keys, data), k) == if keys.contains(k) {
                model_lookup(data, k)
            } else {
                None
            },
    decreases keys.len(),
{
    if keys.len() == 0 {
        assert forall|a: int, b: int|
            0 <= a < b < component_data_members(keys, data).len() implies #[trigger] component_data_members(
            keys,
            data,
        )[a].0 != #[trigger] component_data_members(keys, data)[b].0 by {}
        assert forall|k: Seq<char>|
            #[trigger] model_lookup(component_data_members(keys, data), k) == if keys.contains(k) {
                model_lookup(data, k)
            } else {
                None
            } by {
            lemma_first_key_index(component_data_members(keys, data), k);
        }
    } else {
        let t = keys.drop_last();
        let kl = keys.last();
        let prev = component_data_members(t, data);
        lemma_component_data_members_lookup(t, data);
        assert forall|k: Seq<char>| keys.contains(k) <==> (t.contains(k) || k == kl) by {
            if keys.contains(k) {
                let i = choose|i: int| 0 <= i < keys.len() && keys[i] == k;
                if i < keys.len() - 1 {
                    assert(t[i] == k);
                }
            }
            if t.contains(k) {
                let i = choose|i: int| 0 <= i < t.len() && t[i] == k;
                assert(keys[i] == k);
            }
            if k == kl {
                assert(keys[keys.len() - 1] == k);
            }
        }
        match model_lookup(data, kl) {
            Some(v) => {
                lemma_set_key_keeps_keys_unique(prev, kl, v);
            },
            None => {},
        }
    }
}

/// The data object of an entity of a registered type.
fn component_data_object(keys: &Vec<String>, managed: &YoleckManaged) -> (r: JsonValue)
    ensures
        r@ == JsonModel::Object(component_data_members(strings_view(keys@), managed@.components_data)),
{
    let ghost kv = strings_view(keys@);
    let ghost data = managed@.components_data;
    let mut members: Vec<(String, JsonValue)> = Vec::new();
    proof {
        lemma_members_model(members);
        assert(members_model(members) =~= Seq::empty());
        assert(kv.take(0) =~= Seq::<Seq<char>>::empty());
    }
    let mut i: usize = 0;
    while i < keys.len()
        invariant
            i <= keys.len(),
            kv == strings_view(keys@),
            data == managed@.components_data,
            members_model(members) == component_data_members(kv.take(i as int), data),
        decreases keys.len() - i,
    {
        proof {
            assert(kv.take(i + 1).drop_last() =~= kv.take(i as int));
            assert(kv.take(i + 1).last() == keys@[i as int]@);
            lemma_members_model(managed.components_data);
            lemma_first_key_index(data, keys@[i as int]@);
        }
        match crate::json::find_key(&managed.components_data, keys[i].as_str()) {
            Some(j) => {
                let v = managed.components_data[j].1.deep_clone();
                set_key(&mut members, keys[i].as_str(), v);
            },
            None => {},
        }
        i = i + 1;
    }
    assert(kv.take(i as int) =~= kv);
    JsonValue::Object(members)
}

/// The data saved for an entity: its components' data as an object when its type is registered,
/// `null` otherwise.
pub open spec fn entity_data_model(
    specs: YoleckEntityConstructionSpecs,
    managed: crate::YoleckManagedView,
) -> JsonModel {
    let t = last_type_index(specs.entity_types@, managed.entity_type);
    if t >= 0 {
        JsonModel::Object(
            component_data_members(
                strings_view(specs.entity_types@[t].components@),
                managed.components_data,
            ),
        )
    } else {
        JsonModel::Null
    }
}

/// What is saved of an entity of a registered type: an object that maps each component key
/// registered for its type, for which the entity holds data, to that data, and has no other key.
pub proof fn lemma_saved_data_holds_the_type_components(
    specs: YoleckEntityConstructionSpecs,
    managed: crate::YoleckManagedView,
)
    requires
        last_type_index(specs.entity_types@, managed.entity_type) >= 0,
    ensures
        ({
            let t = last_type_index(specs.entity_types@, managed.entity_type);
            let keys = strings_view(specs.entity_types@[t].components@);
            &&& entity_data_model(specs, managed) is Object
            &&& keys_unique(entity_data_model(specs, managed)->Object_0)
            &&& forall|k: Seq<char>|
                #[trigger] model_lookup(entity_data_model(specs, managed)->Object_0, k) == if keys.contains(
                    k,
                ) {
                    model_lookup(managed.components_data, k)
                } else {
                    None
                }
        }),
{
    let t = last_type_index(specs.entity_types@, managed.entity_type);
    lemma_component_data_members_lookup(
        strings_view(specs.entity_types@[t].components@),
        managed.components_data,
    );
}

/// The level file entry of a managed entity, for saving or playtesting the level.
pub fn entity_raw_entry(
    managed: &YoleckManaged,
    uuid: Option<u128>,
    construction_specs: &YoleckEntityConstructionSpecs,
) -> (r: YoleckRawEntry)
    ensures
        r.header.entity_type@ == managed@.entity_type,
        r.header.name@ == managed@.name,
        r.header.uuid == uuid,
        r.data@ == entity_data_model(*construction_specs, managed@),
{
    let data = match construction_specs.get_entity_type_info(managed.entity_type.as_str()) {
        Some(info) => component_data_object(&info.components, managed),
        None => JsonValue::Null,
    };
    YoleckRawEntry {
        header: YoleckEntryHeader {
            entity_type: managed.entity_type.clone(),
            name: managed.name.clone(),
            uuid,
        },
        data,
    }
}

/// The entry copied to the clipboard for a selected entity: like the saved one but without a
/// UUID, and only for entities of registered types.
pub fn entity_copy_entry(
    managed: &YoleckManaged,
    construction_specs: &YoleckEntityConstructionSpecs,
) -> (r: Option<YoleckRawEntry>)
    ensures
        match r {
            Some(e) => last_type_index(construction_specs.entity_types@, managed@.entity_type) >= 0
                && e.header.entity_type@ == managed@.entity_type && e.header.name@ == managed@.name
                && e.header.uuid is None && e.data@ == entity_data_model(
                *construction_specs,
                managed@,
            ),
            None => last_type_index(construction_specs.entity_types@, managed@.entity_type) < 0,
        },
{
    match construction_specs.get_entity_type_info(managed.entity_type.as_str()) {
        Some(_) => Some(entity_raw_entry(managed, None, construction_specs)),
        None => None,
    }
}

/// The level file for the current entities of the editor. `app_format_version` is the version
/// set by the entity upgrading plugin, `None` when it was not added (version 0).
pub fn gen_raw_level_file(app_format_version: Option<usize>, entries: Vec<YoleckRawEntry>) -> (r:
    YoleckRawLevel)
    ensures
        r.spec_header().format_version == LEVEL_FORMAT_VERSION,
        r.spec_header().app_format_version == match app_format_version {
            Some(v) => v,
            None => 0,
        },
        r.spec_level_data() == JsonModel::Object(Seq::empty()),
        r.spec_entries() == entries@,
{
    let version = match app_format_version {
        Some(v) => v,
        None => 0,
    };
    YoleckRawLevel::new(version, entries)
}

} // verus!
