use vstd::prelude::*;

use crate::editor::YoleckEditorEvent;
use crate::entity_management::{entity_copy_entry, entity_data_model, YoleckRawEntry};
use crate::specs_registration::{last_type_index, YoleckEntityConstructionSpecs};
use crate::{YoleckBelongsToLevel, YoleckManaged, YoleckManagedView, YoleckState};

verus! {

/// Whether a keyboard shortcut of the viewport fires: its key was just pressed with its
/// modifier held, and the editor's UI does not take the keyboard.
pub fn shortcut_fires(ui_wants_keyboard: bool, modifier_held: bool, key_just_pressed: bool) -> (r:
    bool)
    ensures
        r == (!ui_wants_keyboard && modifier_held && key_just_pressed),
{
    !ui_wants_keyboard && modifier_held && key_just_pressed
}

/// The Delete key: every selected entity is deselected (the caller despawns it), and the level
/// needs saving when there was any.
pub fn handle_delete_entity_key(yoleck: &mut YoleckState, selected: &Vec<u64>) -> (r: Vec<
    YoleckEditorEvent,
>)
    ensures
        r@ == selected@.map_values(|e: u64| YoleckEditorEvent::EntityDeselected(e)),
        final(yoleck).level_being_edited == old(yoleck).level_being_edited,
        final(yoleck).level_needs_saving == (old(yoleck).level_needs_saving || selected@.len() > 0),
{
    let mut r: Vec<YoleckEditorEvent> = Vec::new();
    let mut i: usize = 0;
    while i < selected.len()
        invariant
            i <= selected.len(),
            r@ == selected@.take(i as int).map_values(|e: u64| YoleckEditorEvent::EntityDeselected(e)),
        decreases selected.len() - i,
    {
        r.push(YoleckEditorEvent::EntityDeselected(selected[i]));
        assert(selected@.take(i + 1) =~= selected@.take(i as int).push(selected@[i as int]));
        assert(r@ =~= selected@.take(i + 1).map_values(
            |e: u64| YoleckEditorEvent::EntityDeselected(e),
        ));
        i = i + 1;
    }
    assert(selected@.take(i as int) =~= selected@);
    if selected.len() > 0 {
        yoleck.level_needs_saving = true;
    }
    r
}

/// The selected entities that get copied: those of registered types, in order.
pub open spec fn copy_sources(
    specs: YoleckEntityConstructionSpecs,
    selected: Seq<YoleckManagedView>,
) -> Seq<YoleckManagedView> {
    selected.filter(|m: YoleckManagedView| last_type_index(specs.entity_types@, m.entity_type) >= 0)
}

/// The views of the selected entities.
pub open spec fn managed_views(selected: Seq<&YoleckManaged>) -> Seq<YoleckManagedView> {
    selected.map_values(|m: &YoleckManaged| m@)
}

/// Ctrl+C: the entries copied to the clipboard for the selected entities (see
/// [`entity_copy_entry`]), in order; entities of unregistered types are left out.
pub fn copied_entries(
    selected: &Vec<&YoleckManaged>,
    construction_specs: &YoleckEntityConstructionSpecs,
) -> (r: Vec<YoleckRawEntry>)
    ensures
        ({
            let sources = copy_sources(*construction_specs, managed_views(selected@));
            &&& r@.len() == sources.len()
            &&& forall|i: int|
                0 <= i < r@.len() ==> {
                    &&& (#[trigger] r@[i]).header.entity_type@ == sources[i].entity_type
                    &&& r@[i].header.name@ == sources[i].name
                    &&& r@[i].header.uuid is None
                    &&& r@[i].data@ == entity_data_model(*construction_specs, sources[i])
                }
        }),
{
    let ghost registered = |m: YoleckManagedView|
        last_type_index(construction_specs.entity_types@, m.entity_type) >= 0;
    let ghost views = managed_views(selected@);
    let mut r: Vec<YoleckRawEntry> = Vec::new();
    let mut i: usize = 0;
    assert(views.take(0).filter(registered) =~= Seq::<YoleckManagedView>::empty());
    while i < selected.len()
        invariant
            i <= selected.len(),
            views == managed_views(selected@),
            registered == (|m: YoleckManagedView|
                last_type_index(construction_specs.entity_types@, m.entity_type) >= 0),
            r@.len() == views.take(i as int).filter(registered).len(),
            forall|k: int|
                0 <= k < r@.len() ==> {
                    &&& (#[trigger] r@[k]).header.entity_type@ == views.take(i as int).filter(
                        registered,
                    )[k].entity_type
                    &&& r@[k].header.name@ == views.take(i as int).filter(registered)[k].name
                    &&& r@[k].header.uuid is None
                    &&& r@[k].data@ == entity_data_model(
                        *construction_specs,
                        views.take(i as int).filter(registered)[k],
                    )
                },
        decreases selected.len() - i,
    {
        let ghost m = views[i as int];
        let ghost before = views.take(i as int).filter(registered);
        assert(m == selected@[i as int]@);
        assert(views.take(i + 1) =~= views.take(i as int).push(m));
        proof {
            views.take(i as int).lemma_filter_push(m, registered);
        }
        match entity_copy_entry(selected[i], construction_specs) {
            Some(e) => {
                r.push(e);
            },
            None => {},
        }
        i = i + 1;
    }
    assert(views.take(i as int) =~= views);
    r
}

/// Ctrl+V with `entries` read from the clipboard: when there are any, the selected entities are
/// deselected, and the entries are to be spawned in the level being edited, selected; the level
/// needs saving. Returns the deselection events and what to spawn, or `None` when there is
/// nothing to paste.
pub fn paste_entities(
    yoleck: &mut YoleckState,
    selected: &Vec<u64>,
    entries: Vec<YoleckRawEntry>,
) -> (r: Option<(Vec<YoleckEditorEvent>, Vec<(YoleckRawEntry, YoleckBelongsToLevel)>)>)
    ensures
        final(yoleck).level_being_edited == old(yoleck).level_being_edited,
        entries@.len() == 0 ==> r is None && *final(yoleck) == *old(yoleck),
        entries@.len() > 0 ==> {
            &&& r is Some
            &&& r->Some_0.0@ == selected@.map_values(
                |e: u64| YoleckEditorEvent::EntityDeselected(e),
            )
            &&& r->Some_0.1@.len() == entries@.len()
            &&& forall|i: int|
                0 <= i < entries@.len() ==> #[trigger] r->Some_0.1@[i] == (
                    entries@[i],
                    YoleckBelongsToLevel { level: old(yoleck).level_being_edited },
                )
            &&& final(yoleck).level_needs_saving
        },
{
    if entries.len() == 0 {
        return None;
    }
    let mut deselected: Vec<YoleckEditorEvent> = Vec::new();
    let mut i: usize = 0;
    while i < selected.len()
        invariant
            i <= selected.len(),
            deselected@ == selected@.take(i as int).map_values(
                |e: u64| YoleckEditorEvent::EntityDeselected(e),
            ),
        decreases selected.len() - i,
    {
        deselected.push(YoleckEditorEvent::EntityDeselected(selected[i]));
        assert(selected@.take(i + 1) =~= selected@.take(i as int).push(selected@[i as int]));
        assert(deselected@ =~= selected@.take(i + 1).map_values(
            |e: u64| YoleckEditorEvent::EntityDeselected(e),
        ));
        i = i + 1;
    }
    assert(selected@.take(i as int) =~= selected@);
    let level = YoleckBelongsToLevel { level: yoleck.level_being_edited };
    let mut to_spawn: Vec<(YoleckRawEntry, YoleckBelongsToLevel)> = Vec::new();
    let mut rest = entries;
    let ghost all = rest@;
    while rest.len() > 0
        invariant
            to_spawn@.len() + rest@.len() == all.len(),
            rest@ == all.skip(to_spawn@.len() as int),
            forall|k: int| 0 <= k < to_spawn@.len() ==> #[trigger] to_spawn@[k] == (all[k], level),
        decreases rest@.len(),
    {
        let ghost k = to_spawn@.len() as int;
        let e = rest.remove(0);
        assert(e == all[k]);
        assert(rest@ =~= all.skip(k + 1));
        to_spawn.push((e, level));
    }
    yoleck.level_needs_saving = true;
    Some((deselected, to_spawn))
}

} // verus!
