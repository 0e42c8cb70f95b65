use vstd::prelude::*;

use crate::vpeol::{MouseButtonOp, VpeolClickAction};

verus! {

/// The topmost sprite under the cursor after one more sprite under it was found: the new one
/// takes the place of the current one unless it lies `shallower` (its z is smaller), so of
/// sprites at the same depth the last one found wins.
pub open spec fn spec_topmost_step<D>(
    current: Option<(u64, D)>,
    candidate: (u64, D),
    shallower: bool,
) -> Option<(u64, D)> {
    if current is Some && shallower {
        current
    } else {
        Some(candidate)
    }
}

/// One step of finding the topmost sprite under the cursor (see [`spec_topmost_step`]);
/// `shallower` tells whether `candidate` lies below `current`.
pub fn topmost_sprite_step<D>(current: Option<(u64, D)>, candidate: (u64, D), shallower: bool) -> (r:
    Option<(u64, D)>)
    ensures
        r == spec_topmost_step(current, candidate, shallower),
{
    match current {
        Some(c) => if shallower {
            Some(c)
        } else {
            Some(candidate)
        },
        None => Some(candidate),
    }
}

/// The topmost sprite after each of the sprites under the cursor, `hits`, was found in turn,
/// where `depth` gives a sprite's z.
pub open spec fn topmost_after_hits<D>(hits: Seq<(u64, D)>, depth: spec_fn(D) -> int) -> Option<
    (u64, D),
>
    decreases hits.len(),
{
    if hits.len() == 0 {
        None
    } else {
        let prev = topmost_after_hits(hits.drop_last(), depth);
        let shallower = match prev {
            Some(c) => depth(hits.last().1) < depth(c.1),
            None => false,
        };
        spec_topmost_step(prev, hits.last(), shallower)
    }
}

/// Whichever order the sprites under the cursor are found in, the one picked is the last found of
/// those with the greatest z: a lower sprite never replaces a higher one.
pub proof fn lemma_last_deepest_wins<D>(hits: Seq<(u64, D)>, depth: spec_fn(D) -> int)
    requires
        hits.len() > 0,
    ensures
        exists|k: int|
            0 <= k < hits.len() && topmost_after_hits(hits, depth) == Some(#[trigger] hits[k])
                && (forall|j: int| 0 <= j < hits.len() ==> depth(#[trigger] hits[j].1) <= depth(
                hits[k].1,
            )) && (forall|j: int| k < j < hits.len() ==> depth(#[trigger] hits[j].1) < depth(
                hits[k].1,
            )),
    decreases hits.len(),
{
    let n = hits.len() - 1;
    let last = hits.last();
    assert(hits[n] == last);
    if hits.len() == 1 {
        assert(hits.drop_last().len() == 0);
        assert(topmost_after_hits(hits, depth) == Some(hits[0]));
    } else {
        let t = hits.drop_last();
        lemma_last_deepest_wins(t, depth);
        let k = choose|k: int|
            0 <= k < t.len() && topmost_after_hits(t, depth) == Some(#[trigger] t[k]) && (forall|
                j: int,
            | 0 <= j < t.len() ==> depth(#[trigger] t[j].1) <= depth(t[k].1)) && (forall|j: int|
                k < j < t.len() ==> depth(#[trigger] t[j].1) < depth(t[k].1));
        assert(t[k] == hits[k]);
        if depth(last.1) < depth(t[k].1) {
            assert forall|j: int| 0 <= j < hits.len() implies depth(#[trigger] hits[j].1) <= depth(
                hits[k].1,
            ) by {
                if j < n {
                    assert(hits[j] == t[j]);
                }
            }
            assert forall|j: int| k < j < hits.len() implies depth(#[trigger] hits[j].1) < depth(
                hits[k].1,
            ) by {
                if j < n {
                    assert(hits[j] == t[j]);
                }
            }
        } else {
            assert forall|j: int| 0 <= j < hits.len() implies depth(#[trigger] hits[j].1) <= depth(
                hits[n].1,
            ) by {
                if j < n {
                    assert(hits[j] == t[j]);
                }
            }
        }
    }
}

/// How the user is interacting with sprites using the mouse buttons, for one camera. `D` is the
/// geometry of a drag (where the cursor was on screen and its offset from the sprite).
pub enum YoleckClicksOnObjectsState<D> {
    Empty,
    BeingDragged { entity: u64, drag: D },
}

/// What handling the button does for one camera: its new state and the directives sent. A press
/// picks the entity being edited when the cursor is still on it, else the topmost sprite under
/// the cursor: it is selected and dragged; a press elsewhere deselects everything. Holding the
/// button and moving drags the entity.
pub open spec fn spec_clicks_on_objects<D, V>(
    op: MouseButtonOp,
    state: YoleckClicksOnObjectsState<D>,
    edited_under_cursor: Option<(u64, D)>,
    topmost_under_cursor: Option<(u64, D)>,
    cursor_moved: bool,
    moved_drag: (D, V),
) -> (YoleckClicksOnObjectsState<D>, Seq<VpeolClickAction<V>>) {
    match (op, state) {
        (MouseButtonOp::JustPressed, YoleckClicksOnObjectsState::Empty) => {
            let picked = if edited_under_cursor is Some {
                edited_under_cursor
            } else {
                topmost_under_cursor
            };
            match picked {
                Some((e, d)) => (
                    YoleckClicksOnObjectsState::BeingDragged { entity: e, drag: d },
                    seq![VpeolClickAction::SetSelected(Some(e))],
                ),
                None => (
                    YoleckClicksOnObjectsState::Empty,
                    seq![VpeolClickAction::SetSelected(None)],
                ),
            }
        },
        (MouseButtonOp::BeingPressed, YoleckClicksOnObjectsState::BeingDragged { entity, .. }) => {
            if cursor_moved {
                (
                    YoleckClicksOnObjectsState::BeingDragged { entity, drag: moved_drag.0 },
                    seq![VpeolClickAction::DragTo(entity, moved_drag.1)],
                )
            } else {
                (state, Seq::empty())
            }
        },
        _ => (state, Seq::empty()),
    }
}

/// Handle the left button over 2D sprites for one camera (see [`spec_clicks_on_objects`]).
/// `moved_drag` is the new drag data and the position the dragged entity goes to.
pub fn yoleck_clicks_on_objects<D, V>(
    op: MouseButtonOp,
    state: &mut YoleckClicksOnObjectsState<D>,
    edited_under_cursor: Option<(u64, D)>,
    topmost_under_cursor: Option<(u64, D)>,
    cursor_moved: bool,
    moved_drag: (D, V),
) -> (r: Vec<VpeolClickAction<V>>)
    ensures
        (*final(state), r@) == spec_clicks_on_objects(
            op,
            *old(state),
            edited_under_cursor,
            topmost_under_cursor,
            cursor_moved,
            moved_drag,
        ),
{
    let mut r: Vec<VpeolClickAction<V>> = Vec::new();
    match op {
        MouseButtonOp::JustPressed => {
            if let YoleckClicksOnObjectsState::Empty = state {
                let picked = match edited_under_cursor {
                    Some(p) => Some(p),
                    None => topmost_under_cursor,
                };
                match picked {
                    Some((e, d)) => {
                        r.push(VpeolClickAction::SetSelected(Some(e)));
                        *state = YoleckClicksOnObjectsState::BeingDragged { entity: e, drag: d };
                    },
                    None => {
                        r.push(VpeolClickAction::SetSelected(None));
                    },
                }
            }
        },
        MouseButtonOp::BeingPressed => {
            let dragged = match state {
                YoleckClicksOnObjectsState::BeingDragged { entity, .. } => Some(*entity),
                YoleckClicksOnObjectsState::Empty => None,
            };
            if let Some(entity) = dragged {
                if cursor_moved {
                    let (d, v) = moved_drag;
                    r.push(VpeolClickAction::DragTo(entity, v));
                    *state = YoleckClicksOnObjectsState::BeingDragged { entity, drag: d };
                }
            }
        },
        MouseButtonOp::JustReleased => {},
    }
    assert(r@ =~= spec_clicks_on_objects(
        op,
        *old(state),
        edited_under_cursor,
        topmost_under_cursor,
        cursor_moved,
        moved_drag,
    ).1);
    r
}

} // verus!
