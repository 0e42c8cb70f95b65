use vstd::prelude::*;


verus! {

/// What the left mouse button does this frame.
#[derive(Debug, Clone, Copy, PartialEq, Eq, Structural)]
pub enum MouseButtonOp {
    JustPressed,
    BeingPressed,
    JustReleased,
}

/// How a frame of mouse handling goes.
#[derive(Debug, Clone, Copy, PartialEq, Eq, Structural)]
pub enum ClickFrame {
    /// A press outside the editor viewport, or over the editor's own UI: the viewport ignores it.
    Ignore,
    /// The button is up: every camera forgets its drag.
    ResetAll,
    /// Each camera handles the button.
    Handle(MouseButtonOp),
}

/// How the viewport handles the left button this frame: a fresh press wins over a release, which
/// wins over holding the button. A fresh press is the viewport's only where the cursor is inside
/// the editor viewport and not over the editor's UI; any other press is ignored, so it changes
/// nothing.
pub fn click_frame(
    just_pressed: bool,
    just_released: bool,
    pressed: bool,
    pointer_over_ui: bool,
    cursor_in_viewport: bool,
) -> (r: ClickFrame)
    ensures
        r == if just_pressed {
            if pointer_over_ui || !cursor_in_viewport {
                ClickFrame::Ignore
            } else {
                ClickFrame::Handle(MouseButtonOp::JustPressed)
            }
        } else if just_released {
            ClickFrame::Handle(MouseButtonOp::JustReleased)
        } else if pressed {
            ClickFrame::Handle(MouseButtonOp::BeingPressed)
        } else {
            ClickFrame::ResetAll
        },
{
    if just_pressed {
        if pointer_over_ui || !cursor_in_viewport {
            ClickFrame::Ignore
        } else {
            ClickFrame::Handle(MouseButtonOp::JustPressed)
        }
    } else if just_released {
        ClickFrame::Handle(MouseButtonOp::JustReleased)
    } else if pressed {
        ClickFrame::Handle(MouseButtonOp::BeingPressed)
    } else {
        ClickFrame::ResetAll
    }
}

/// How the user is interacting with entities using the mouse buttons. `D` is the geometry of a
/// drag (where the cursor was on screen and its offset from the entity's center).
pub enum VpeolClicksOnObjectsState<D> {
    Empty,
    BeingDragged { entity: u64, drag: D, select_on_mouse_release: bool },
}

/// What the geometry of the viewport gave for starting or continuing a drag of an entity.
pub enum DragGeometry<D> {
    /// The entity has no transform.
    NoTransform,
    /// The cursor's ray does not meet the entity's drag plane.
    NoIntersection,
    /// The drag data.
    Found(D),
}

/// A directive that the viewport sends to the editor. `V` is a position in the world.
pub enum VpeolClickAction<V> {
    /// Add the entity to the selection, or remove it.
    ToggleSelected(u64),
    /// Select only that entity, or nothing.
    SetSelected(Option<u64>),
    /// Tell a knob it was clicked.
    KnobClicked(u64),
    /// Tell an entity where it is dragged to.
    DragTo(u64, V),
}

/// What the viewport knows, for one camera, when handling the button.
pub struct CameraClickInput<D, V> {
    /// Whether a Shift key is held.
    pub shift_held: bool,
    /// The topmost entity under the cursor.
    pub entity_under_cursor: Option<u64>,
    /// Whether the entity under the cursor is selected.
    pub under_cursor_selected: bool,
    /// The first knob the cursor points at.
    pub knob_pointed: Option<u64>,
    /// The drag geometry of that knob.
    pub knob_drag: DragGeometry<D>,
    /// The drag geometry of the entity under the cursor.
    pub entity_drag: DragGeometry<D>,
    /// Whether the cursor moved far enough on screen since the drag was last updated.
    pub cursor_moved: bool,
    /// For the entity being dragged: its new drag data and the position it is dragged to.
    pub moved_drag: DragGeometry<(D, V)>,
}

/// What handling the button does for one camera: its new state and the directives sent.
/// A press with Shift toggles the entity under the cursor. Otherwise a press on a knob clicks
/// it and drags it; a press on an entity selects it (unless it is selected already, in which
/// case it is selected alone when the button is released without dragging) and drags it; a
/// press elsewhere deselects everything. Holding the button and moving drags the entity. When
/// the geometry of a press or a move is missing, the state stays as it was.
pub open spec fn spec_camera_clicks<D, V>(
    op: MouseButtonOp,
    state: VpeolClicksOnObjectsState<D>,
    input: CameraClickInput<D, V>,
) -> (VpeolClicksOnObjectsState<D>, Seq<VpeolClickAction<V>>) {
    match (op, state) {
        (MouseButtonOp::JustPressed, VpeolClicksOnObjectsState::Empty) => {
            if input.shift_held {
                (
                    state,
                    match input.entity_under_cursor {
                        Some(e) => seq![VpeolClickAction::ToggleSelected(e)],
                        None => Seq::empty(),
                    },
                )
            } else if input.knob_pointed is Some {
                let k = input.knob_pointed->Some_0;
                match input.knob_drag {
                    DragGeometry::Found(d) => (
                        VpeolClicksOnObjectsState::BeingDragged {
                            entity: k,
                            drag: d,
                            select_on_mouse_release: false,
                        },
                        seq![VpeolClickAction::KnobClicked(k)],
                    ),
                    _ => (state, seq![VpeolClickAction::KnobClicked(k)]),
                }
            } else {
                match input.entity_under_cursor {
                    Some(e) => {
                        let select = if input.under_cursor_selected {
                            Seq::empty()
                        } else {
                            seq![VpeolClickAction::SetSelected(Some(e))]
                        };
                        match input.entity_drag {
                            DragGeometry::NoTransform => (state, Seq::empty()),
                            DragGeometry::NoIntersection => (state, select),
                            DragGeometry::Found(d) => (
                                VpeolClicksOnObjectsState::BeingDragged {
                                    entity: e,
                                    drag: d,
                                    select_on_mouse_release: input.under_cursor_selected,
                                },
                                select,
                            ),
                        }
                    },
                    None => (
                        VpeolClicksOnObjectsState::Empty,
                        seq![VpeolClickAction::SetSelected(None)],
                    ),
                }
            }
        },
        (MouseButtonOp::BeingPressed, VpeolClicksOnObjectsState::BeingDragged { entity, .. }) => {
            if input.cursor_moved && input.moved_drag is Found {
                let (d, v) = input.moved_drag->Found_0;
                (
                    VpeolClicksOnObjectsState::BeingDragged {
                        entity,
                        drag: d,
                        select_on_mouse_release: false,
                    },
                    seq![VpeolClickAction::DragTo(entity, v)],
                )
            } else {
                (state, Seq::empty())
            }
        },
        (
            MouseButtonOp::JustReleased,
            VpeolClicksOnObjectsState::BeingDragged { entity, select_on_mouse_release, .. },
        ) => {
            if select_on_mouse_release {
                (
                    VpeolClicksOnObjectsState::Empty,
                    seq![VpeolClickAction::SetSelected(Some(entity))],
                )
            } else {
                (state, Seq::empty())
            }
        },
        _ => (state, Seq::empty()),
    }
}

/// Handle the left button for one camera (see [`spec_camera_clicks`]).
pub fn handle_camera_clicks<D, V>(
    op: MouseButtonOp,
    state: &mut VpeolClicksOnObjectsState<D>,
    input: CameraClickInput<D, V>,
) -> (r: Vec<VpeolClickAction<V>>)
    ensures
        (*final(state), r@) == spec_camera_clicks(op, *old(state), input),
{
    let mut r: Vec<VpeolClickAction<V>> = Vec::new();
    match op {
        MouseButtonOp::JustPressed => {
            if let VpeolClicksOnObjectsState::Empty = state {
                if input.shift_held {
                    if let Some(e) = input.entity_under_cursor {
                        r.push(VpeolClickAction::ToggleSelected(e));
                    }
                } else if let Some(k) = input.knob_pointed {
                    r.push(VpeolClickAction::KnobClicked(k));
                    if let DragGeometry::Found(d) = input.knob_drag {
                        *state = VpeolClicksOnObjectsState::BeingDragged {
                            entity: k,
                            drag: d,
                            select_on_mouse_release: false,
                        };
                    }
                } else if let Some(e) = input.entity_under_cursor {
                    let selected = input.under_cursor_selected;
                    match input.entity_drag {
                        DragGeometry::NoTransform => {},
                        DragGeometry::NoIntersection => {
                            if !selected {
                                r.push(VpeolClickAction::SetSelected(Some(e)));
                            }
                        },
                        DragGeometry::Found(d) => {
                            if !selected {
                                r.push(VpeolClickAction::SetSelected(Some(e)));
                            }
                            *state = VpeolClicksOnObjectsState::BeingDragged {
                                entity: e,
                                drag: d,
                                select_on_mouse_release: selected,
                            };
                        },
                    }
                } else {
                    r.push(VpeolClickAction::SetSelected(None));
                }
            }
        },
        MouseButtonOp::BeingPressed => {
            let dragged = match state {
                VpeolClicksOnObjectsState::BeingDragged { entity, .. } => Some(*entity),
                VpeolClicksOnObjectsState::Empty => None,
            };
            if let Some(entity) = dragged {
                if input.cursor_moved {
                    if let DragGeometry::Found((d, v)) = input.moved_drag {
                        r.push(VpeolClickAction::DragTo(entity, v));
                        *state = VpeolClicksOnObjectsState::BeingDragged {
                            entity,
                            drag: d,
                            select_on_mouse_release: false,
                        };
                    }
                }
            }
        },
        MouseButtonOp::JustReleased => {
            let release_select = match state {
                VpeolClicksOnObjectsState::BeingDragged { entity, select_on_mouse_release, .. } => {
                    if *select_on_mouse_release {
                        Some(*entity)
                    } else {
                        None
                    }
                },
                VpeolClicksOnObjectsState::Empty => None,
            };
            if let Some(entity) = release_select {
                r.push(VpeolClickAction::SetSelected(Some(entity)));
                *state = VpeolClicksOnObjectsState::Empty;
            }
        },
    }
    assert(r@ =~= spec_camera_clicks(op, *old(state), input).1);
    r
}

/// Pressing on an entity that is not selected selects it right away; pressing on a selected one
/// and releasing without moving selects it alone.
pub proof fn lemma_click_selects<D, V>(
    e: u64,
    d: D,
    selected: bool,
    input: CameraClickInput<D, V>,
    release: CameraClickInput<D, V>,
)
    requires
        !input.shift_held,
        input.knob_pointed is None,
        input.entity_under_cursor == Some(e),
        input.under_cursor_selected == selected,
        input.entity_drag == DragGeometry::<D>::Found(d),
    ensures
        ({
            let (s1, a1) = spec_camera_clicks(
                MouseButtonOp::JustPressed,
                VpeolClicksOnObjectsState::<D>::Empty,
                input,
            );
            let (s2, a2) = spec_camera_clicks(MouseButtonOp::JustReleased, s1, release);
            &&& (a1 + a2).contains(VpeolClickAction::SetSelected(Some(e)))
            &&& s2 is Empty <==> selected
        }),
{
    let (s1, a1) = spec_camera_clicks(
        MouseButtonOp::JustPressed,
        VpeolClicksOnObjectsState::<D>::Empty,
        input,
    );
    let (s2, a2) = spec_camera_clicks(MouseButtonOp::JustReleased, s1, release);
    if selected {
        assert((a1 + a2)[0] == VpeolClickAction::<V>::SetSelected(Some(e)));
    } else {
        assert((a1 + a2)[0] == VpeolClickAction::<V>::SetSelected(Some(e)));
    }
}

/// What a press does, by what is under the cursor: with Shift it toggles the entity under the
/// cursor and starts no drag; on a knob it clicks the knob; on an entity that is not selected it
/// selects that entity; on nothing it deselects everything. Holding the button without moving,
/// or releasing it while nothing is dragged, sends nothing and changes nothing.
pub proof fn lemma_press_outcomes<D, V>(
    state: VpeolClicksOnObjectsState<D>,
    input: CameraClickInput<D, V>,
)
    ensures
        ({
            let (s1, a1) = spec_camera_clicks(
                MouseButtonOp::JustPressed,
                VpeolClicksOnObjectsState::<D>::Empty,
                input,
            );
            &&& input.shift_held ==> s1 is Empty && a1 == match input.entity_under_cursor {
                Some(e) => seq![VpeolClickAction::<V>::ToggleSelected(e)],
                None => Seq::empty(),
            }
            &&& !input.shift_held && input.knob_pointed is Some ==> a1 == seq![
                VpeolClickAction::<V>::KnobClicked(input.knob_pointed->Some_0),
            ]
            &&& !input.shift_held && input.knob_pointed is None && input.entity_under_cursor is None
                ==> s1 is Empty && a1 == seq![VpeolClickAction::<V>::SetSelected(None)]
            &&& !input.shift_held && input.knob_pointed is None
                && input.entity_under_cursor is Some && !input.under_cursor_selected
                && !(input.entity_drag is NoTransform) ==> a1 == seq![
                VpeolClickAction::<V>::SetSelected(input.entity_under_cursor),
            ]
        }),
        !input.cursor_moved ==> spec_camera_clicks(MouseButtonOp::BeingPressed, state, input) == (
        state,
        Seq::<VpeolClickAction<V>>::empty()),
        state is Empty ==> spec_camera_clicks(MouseButtonOp::JustReleased, state, input) == (
        state,
        Seq::<VpeolClickAction<V>>::empty()),
{
}

/// Moving an entity cancels its selection on release: whenever holding the button drags the
/// entity (a `DragTo` is sent), the camera keeps dragging that entity and will no longer select
/// it alone on release, so the release that follows sends nothing and keeps the state.
pub proof fn lemma_drag_cancels_select_on_release<D, V>(
    state: VpeolClicksOnObjectsState<D>,
    input: CameraClickInput<D, V>,
    release: CameraClickInput<D, V>,
)
    ensures
        ({
            let (s1, a1) = spec_camera_clicks(MouseButtonOp::BeingPressed, state, input);
            forall|i: int|
                0 <= i < a1.len() && #[trigger] a1[i] is DragTo ==> {
                    &&& s1 matches VpeolClicksOnObjectsState::BeingDragged {
                        entity,
                        select_on_mouse_release,
                        ..
                    } && entity == a1[i]->DragTo_0 && !select_on_mouse_release
                    &&& spec_camera_clicks(MouseButtonOp::JustReleased, s1, release).0 == s1
                    &&& spec_camera_clicks(MouseButtonOp::JustReleased, s1, release).1.len() == 0
                }
        }),
{
}

/// Pressing on an entity that is already selected (others may be selected with it), dragging it
/// and releasing the button leaves the selection as it was: the press and the release send no
/// selection change, and the drag moves the entity.
pub proof fn lemma_dragging_a_selected_entity_keeps_the_selection<D, V>(
    e: u64,
    d: D,
    moved: (D, V),
    press: CameraClickInput<D, V>,
    drag: CameraClickInput<D, V>,
    release: CameraClickInput<D, V>,
)
    requires
        !press.shift_held,
        press.knob_pointed is None,
        press.entity_under_cursor == Some(e),
        press.under_cursor_selected,
        press.entity_drag == DragGeometry::<D>::Found(d),
        drag.cursor_moved,
        drag.moved_drag == DragGeometry::<(D, V)>::Found(moved),
    ensures
        ({
            let (s1, a1) = spec_camera_clicks(
                MouseButtonOp::JustPressed,
                VpeolClicksOnObjectsState::<D>::Empty,
                press,
            );
            let (s2, a2) = spec_camera_clicks(MouseButtonOp::BeingPressed, s1, drag);
            let (s3, a3) = spec_camera_clicks(MouseButtonOp::JustReleased, s2, release);
            &&& a1.len() == 0
            &&& a2 == seq![VpeolClickAction::DragTo(e, moved.1)]
            &&& a3.len() == 0
            &&& s3 == s2
            &&& forall|i: int|
                0 <= i < (a1 + a2 + a3).len() ==> !(#[trigger] (a1 + a2 + a3)[i] is SetSelected)
        }),
{
    let (s1, a1) = spec_camera_clicks(
        MouseButtonOp::JustPressed,
        VpeolClicksOnObjectsState::<D>::Empty,
        press,
    );
    let (s2, a2) = spec_camera_clicks(MouseButtonOp::BeingPressed, s1, drag);
    let (s3, a3) = spec_camera_clicks(MouseButtonOp::JustReleased, s2, release);
    assert(a1 + a2 + a3 =~= a2);
}

/// The entity being dragged, if any: the camera keeps telling it where the cursor is even when
/// another entity covers it.
pub fn dragged_entity<D>(state: &VpeolClicksOnObjectsState<D>) -> (r: Option<u64>)
    ensures
        r == match *state {
            VpeolClicksOnObjectsState::BeingDragged { entity, .. } => Some(entity),
            VpeolClicksOnObjectsState::Empty => None,
        },
{
    match state {
        VpeolClicksOnObjectsState::BeingDragged { entity, .. } => Some(*entity),
        VpeolClicksOnObjectsState::Empty => None,
    }
}

/// Where a camera sees the cursor pointing: the topmost entity, and the entities of interest
/// (knobs and the dragged entity), which are tracked even when covered. `P` tells how the
/// cursor points at an entity.
pub struct VpeolCameraState<P> {
    pub entity_under_cursor: Option<(u64, P)>,
    /// No entity occurs twice.
    pub entities_of_interest: Vec<(u64, Option<P>)>,
}

/// The index of `entity` among the entities of interest, or -1.
pub open spec fn interest_index<P>(s: Seq<(u64, Option<P>)>, entity: u64) -> int
    decreases s.len(),
{
    if s.len() == 0 {
        -1
    } else if s.last().0 == entity {
        s.len() - 1
    } else {
        interest_index(s.drop_last(), entity)
    }
}

pub proof fn lemma_interest_index<P>(s: Seq<(u64, Option<P>)>, entity: u64)
    ensures
        -1 <= interest_index(s, entity) < s.len(),
        interest_index(s, entity) >= 0 ==> s[interest_index(s, entity)].0 == entity,
        interest_index(s, entity) < 0 ==> forall|i: int| 0 <= i < s.len() ==> #[trigger] s[i].0 != entity,
    decreases s.len(),
{
    if s.len() > 0 {
        lemma_interest_index(s.drop_last(), entity);
        assert forall|i: int| 0 <= i < s.len() - 1 implies #[trigger] s[i] == s.drop_last()[i] by {}
    }
}

/// How the camera points at `entity`, if it does.
pub open spec fn spec_pointing_at<P>(
    under_cursor: Option<(u64, P)>,
    interest: Seq<(u64, Option<P>)>,
    entity: u64,
) -> Option<P> {
    if under_cursor is Some && under_cursor->Some_0.0 == entity {
        Some(under_cursor->Some_0.1)
    } else if interest_index(interest, entity) >= 0 {
        interest[interest_index(interest, entity)].1
    } else {
        None
    }
}

/// The entities of interest as a frame starts: the knobs, then the dragged entity, each once,
/// pointed at by nothing yet.
pub open spec fn spec_fresh_interest<P>(entities: Seq<u64>) -> Seq<(u64, Option<P>)>
    decreases entities.len(),
{
    if entities.len() == 0 {
        Seq::empty()
    } else {
        let prev = spec_fresh_interest::<P>(entities.drop_last());
        if interest_index(prev, entities.last()) >= 0 {
            prev
        } else {
            prev.push((entities.last(), None))
        }
    }
}

pub open spec fn interest_keys_unique<P>(s: Seq<(u64, Option<P>)>) -> bool {
    forall|i: int, j: int| 0 <= i < j < s.len() ==> #[trigger] s[i].0 != #[trigger] s[j].0
}

/// The index of `entity` among the entities of interest.
fn find_interest<P>(s: &Vec<(u64, Option<P>)>, entity: u64) -> (r: Option<usize>)
    ensures
        match r {
            Some(i) => i == interest_index(s@, entity) && i < s@.len(),
            None => interest_index(s@, entity) < 0,
        },
{
    proof {
        lemma_interest_index(s@, entity);
    }
    let mut i = s.len();
    assert(s@.take(i as int) =~= s@);
    while i > 0
        invariant
            i <= s@.len(),
            interest_index(s@, entity) == interest_index(s@.take(i as int), entity),
        decreases i,
    {
        assert(s@.take(i as int).drop_last() =~= s@.take(i - 1));
        assert(s@.take(i as int).last() == s@[i - 1]);
        if s[i - 1].0 == entity {
            return Some(i - 1);
        }
        i = i - 1;
    }
    None
}

/// The topmost entity after the cursor was found pointing at `entity`: it takes the place of the
/// current one when there is none yet or it is `nearer`.
pub open spec fn spec_consider_under<P>(
    under: Option<(u64, P)>,
    entity: u64,
    nearer: bool,
    pointing: P,
) -> Option<(u64, P)> {
    if under is None || nearer {
        Some((entity, pointing))
    } else {
        under
    }
}

/// The topmost entity after the cursor was found pointing at each of `calls` in turn, starting
/// with none, where an entity is nearer when its depth on screen (`depth` of its pointing) is
/// greater than that of the current topmost one.
pub open spec fn under_after_considers<P>(
    calls: Seq<(u64, P)>,
    depth: spec_fn(P) -> int,
) -> Option<(u64, P)>
    decreases calls.len(),
{
    if calls.len() == 0 {
        None
    } else {
        let prev = under_after_considers(calls.drop_last(), depth);
        let nearer = match prev {
            Some(u) => depth(u.1) < depth(calls.last().1),
            None => true,
        };
        spec_consider_under(prev, calls.last().0, nearer, calls.last().1)
    }
}

/// Whichever order the entities under the cursor are considered in, the topmost one is the first
/// of the deepest on screen: a shallower entity never replaces a deeper one, and of entities at
/// the same depth the first one considered stays.
pub proof fn lemma_first_deepest_wins<P>(calls: Seq<(u64, P)>, depth: spec_fn(P) -> int)
    requires
        calls.len() > 0,
    ensures
        under_after_considers(calls, depth) is Some,
        exists|k: int|
            0 <= k < calls.len() && under_after_considers(calls, depth) == Some(
                #[trigger] calls[k],
            ) && (forall|j: int| 0 <= j < calls.len() ==> depth(#[trigger] calls[j].1) <= depth(
                calls[k].1,
            )) && (forall|j: int| 0 <= j < k ==> depth(#[trigger] calls[j].1) < depth(calls[k].1)),
    decreases calls.len(),
{
    let last = calls.last();
    if calls.len() == 1 {
        assert(calls.drop_last().len() == 0);
        assert(under_after_considers(calls, depth) == Some(calls[0]));
    } else {
        let t = calls.drop_last();
        lemma_first_deepest_wins(t, depth);
        let k = choose|k: int|
            0 <= k < t.len() && under_after_considers(t, depth) == Some(#[trigger] t[k]) && (forall|
                j: int,
            | 0 <= j < t.len() ==> depth(#[trigger] t[j].1) <= depth(t[k].1)) && (forall|j: int|
                0 <= j < k ==> depth(#[trigger] t[j].1) < depth(t[k].1));
        assert(t[k] == calls[k]);
        if depth(t[k].1) < depth(last.1) {
            let n = calls.len() - 1;
            assert(calls[n] == last);
            assert forall|j: int| 0 <= j < calls.len() implies depth(#[trigger] calls[j].1) <= depth(
                calls[n].1,
            ) by {
                if j < n {
                    assert(calls[j] == t[j]);
                }
            }
            assert forall|j: int| 0 <= j < n implies depth(#[trigger] calls[j].1) < depth(
                calls[n].1,
            ) by {
                assert(calls[j] == t[j]);
            }
        } else {
            assert forall|j: int| 0 <= j < calls.len() implies depth(#[trigger] calls[j].1) <= depth(
                calls[k].1,
            ) by {
                if j < calls.len() - 1 {
                    assert(calls[j] == t[j]);
                }
            }
            assert forall|j: int| 0 <= j < k implies depth(#[trigger] calls[j].1) < depth(
                calls[k].1,
            ) by {
                assert(calls[j] == t[j]);
            }
        }
    }
}

impl<P: Copy> VpeolCameraState<P> {
    /// The state as a frame starts (see [`spec_fresh_interest`]); `dragged` is the entity the
    /// camera drags, if any.
    pub fn prepare(knobs: &Vec<u64>, dragged: Option<u64>) -> (r: Self)
        ensures
            r.entity_under_cursor is None,
            r.entities_of_interest@ == spec_fresh_interest::<P>(
                match dragged {
                    Some(e) => knobs@.push(e),
                    None => knobs@,
                },
            ),
            interest_keys_unique(r.entities_of_interest@),
    {
        let mut all: Vec<u64> = knobs.clone();
        if let Some(e) = dragged {
            all.push(e);
        }
        let mut interest: Vec<(u64, Option<P>)> = Vec::new();
        let mut i: usize = 0;
        assert(all@.take(0) =~= Seq::<u64>::empty());
        while i < all.len()
            invariant
                i <= all.len(),
                interest@ == spec_fresh_interest::<P>(all@.take(i as int)),
                interest_keys_unique(interest@),
            decreases all.len() - i,
        {
            let e = all[i];
            assert(all@.take(i + 1).drop_last() =~= all@.take(i as int));
            proof {
                lemma_interest_index(interest@, e);
            }
            let mut found = false;
            let mut j: usize = 0;
            while j < interest.len()
                invariant
                    j <= interest.len(),
                    found <==> exists|k: int| 0 <= k < j && #[trigger] interest@[k].0 == e,
                decreases interest.len() - j,
            {
                if interest[j].0 == e {
                    found = true;
                }
                j = j + 1;
            }
            if !found {
                interest.push((e, None));
            }
            i = i + 1;
        }
        assert(all@.take(i as int) =~= all@);
        VpeolCameraState { entity_under_cursor: None, entities_of_interest: interest }
    }

    /// Tell the camera that the cursor points at `entity`, with `pointing`. `nearer` tells
    /// whether the entity is in front of the current topmost one. The entity becomes the topmost
    /// when there is none yet or it is nearer; an entity of interest records the pointing either
    /// way.
    pub fn consider(&mut self, entity: u64, nearer: bool, pointing: P)
        requires
            interest_keys_unique(old(self).entities_of_interest@),
        ensures
            interest_keys_unique(final(self).entities_of_interest@),
            ({
                let i = interest_index(old(self).entities_of_interest@, entity);
                &&& final(self).entity_under_cursor == spec_consider_under(
                    old(self).entity_under_cursor,
                    entity,
                    nearer,
                    pointing,
                )
                &&& final(self).entities_of_interest@ == if i >= 0 {
                    old(self).entities_of_interest@.update(i, (entity, Some(pointing)))
                } else {
                    old(self).entities_of_interest@
                }
            }),
    {
        proof {
            lemma_interest_index(self.entities_of_interest@, entity);
        }
        let should_update = self.entity_under_cursor.is_none() || nearer;
        let ghost s0 = self.entities_of_interest@;
        if let Some(i) = find_interest(&self.entities_of_interest, entity) {
            self.entities_of_interest.set(i, (entity, Some(pointing)));
            proof {
                assert forall|a: int, b: int|
                    0 <= a < b < self.entities_of_interest@.len() implies #[trigger] self.entities_of_interest@[a].0
                    != #[trigger] self.entities_of_interest@[b].0 by {
                    assert(s0[a].0 != s0[b].0);
                }
            }
        }
        if should_update {
            self.entity_under_cursor = Some((entity, pointing));
        }
    }

    /// How the cursor points at `entity`, if it does (see [`spec_pointing_at`]).
    pub fn pointing_at_entity(&self, entity: u64) -> (r: Option<P>)
        ensures
            r == spec_pointing_at(self.entity_under_cursor, self.entities_of_interest@, entity),
    {
        if let Some((under, pointing)) = self.entity_under_cursor {
            if under == entity {
                return Some(pointing);
            }
        }
        match find_interest(&self.entities_of_interest, entity) {
            Some(i) => self.entities_of_interest[i].1,
            None => None,
        }
    }

    /// The first of `knobs` that the cursor points at, with how it points at it.
    pub fn first_pointed_knob(&self, knobs: &Vec<u64>) -> (r: Option<(u64, P)>)
        ensures
            match r {
                Some((k, p)) => exists|i: int|
                    0 <= i < knobs@.len() && knobs@[i] == k && spec_pointing_at(
                        self.entity_under_cursor,
                        self.entities_of_interest@,
                        k,
                    ) == Some(p) && forall|j: int|
                        0 <= j < i ==> #[trigger] spec_pointing_at(
                            self.entity_under_cursor,
                            self.entities_of_interest@,
                            knobs@[j],
                        ) is None,
                None => forall|j: int|
                    0 <= j < knobs@.len() ==> #[trigger] spec_pointing_at(
                        self.entity_under_cursor,
                        self.entities_of_interest@,
                        knobs@[j],
                    ) is None,
            },
    {
        let mut i: usize = 0;
        while i < knobs.len()
            invariant
                i <= knobs.len(),
                forall|j: int|
                    0 <= j < i ==> #[trigger] spec_pointing_at(
                        self.entity_under_cursor,
                        self.entities_of_interest@,
                        knobs@[j],
                    ) is None,
            decreases knobs.len() - i,
        {
            if let Some(p) = self.pointing_at_entity(knobs[i]) {
                return Some((knobs[i], p));
            }
            i = i + 1;
        }
        None
    }
}

/// The entity in charge of one the user points at: the entity it routes clicks to, when it
/// does, else itself when it is a Yoleck entity or a knob.
pub fn resolve_root(entity: u64, route_click_to: Option<u64>, is_managed_or_knob: bool) -> (r:
    Option<u64>)
    ensures
        r == match route_click_to {
            Some(root) => Some(root),
            None => if is_managed_or_knob {
                Some(entity)
            } else {
                None
            },
        },
{
    match route_click_to {
        Some(root) => Some(root),
        None => if is_managed_or_knob {
            Some(entity)
        } else {
            None
        },
    }
}

/// What the entity-picking tool shows about the entity under the cursor.
pub enum ClickTargetLabel {
    NoTarget,
    /// The entity is of a type that cannot be picked.
    Invalid(String),
    /// The entity (its debug text) can be picked.
    Targeting(u64, String),
}

/// Detects an entity that's being clicked on, for an exclusive system that picks one.
/// `target` is the entity under the cursor of the first camera that has one (`None` when the
/// pointer is over the editor's UI), `target_type` its Yoleck type when it is a Yoleck entity,
/// and `passes_filter` whether it may be picked. A target is picked when the button is pressed
/// and then released on it; `candidate` remembers the press between frames.
pub fn vpeol_read_click_on_entity(
    candidate: &mut Option<u64>,
    target: Option<u64>,
    target_type: Option<&str>,
    passes_filter: bool,
    just_pressed: bool,
    just_released: bool,
) -> (r: (Option<u64>, ClickTargetLabel))
    ensures
        match (target, target_type) {
            (Some(t), Some(ty)) => if !passes_filter {
                &&& r.0 is None
                &&& r.1 matches ClickTargetLabel::Invalid(s) && s@ == ty@
                &&& *final(candidate) == *old(candidate)
            } else {
                &&& r.1 matches ClickTargetLabel::Targeting(e, s) && e == t && s@ == ty@
                &&& if just_pressed {
                    &&& r.0 is None
                    &&& *final(candidate) == Some(t)
                } else if just_released {
                    &&& r.0 == (if *old(candidate) == Some(t) {
                        Some(t)
                    } else {
                        None
                    })
                    &&& *final(candidate) is None
                } else {
                    &&& r.0 is None
                    &&& *final(candidate) == *old(candidate)
                }
            },
            _ => {
                &&& r.0 is None
                &&& r.1 is NoTarget
                &&& *final(candidate) == *old(candidate)
            },
        },
{
    let (t, ty) = match (target, target_type) {
        (Some(t), Some(ty)) => (t, ty),
        _ => {
            return (None, ClickTargetLabel::NoTarget);
        },
    };
    if !passes_filter {
        return (None, ClickTargetLabel::Invalid(String::from_str(ty)));
    }
    let label = ClickTargetLabel::Targeting(t, String::from_str(ty));
    if just_pressed {
        *candidate = Some(t);
    } else if just_released {
        if let Some(c) = candidate.take() {
            if c == t {
                return (Some(t), label);
            }
        }
    }
    (None, label)
}

/// The text of a [`ClickTargetLabel`]; `entity_text` is the target's debug text.
pub fn click_target_label_text(label: &ClickTargetLabel, entity_text: &str) -> (r: String)
    ensures
        r@ == match *label {
            ClickTargetLabel::NoTarget => "No Target"@,
            ClickTargetLabel::Invalid(ty) => "Invalid Target ("@ + ty@ + ")"@,
            ClickTargetLabel::Targeting(_, ty) => "Targeting "@ + entity_text@ + " ("@ + ty@
                + ")"@,
        },
{
    match label {
        ClickTargetLabel::NoTarget => String::from_str("No Target"),
        ClickTargetLabel::Invalid(ty) => {
            let mut r = String::from_str("Invalid Target (");
            r.append(ty.as_str());
            r.append(")");
            r
        },
        ClickTargetLabel::Targeting(_, ty) => {
            let mut r = String::from_str("Targeting ");
            r.append(entity_text);
            r.append(" (");
            r.append(ty.as_str());
            r.append(")");
            r
        },
    }
}

/// A [passed data](crate::editor::YoleckPassedData) to a knob entity that indicates it was
/// clicked by the level editor.
#[derive(Debug, Clone, Copy, PartialEq, Eq, Structural)]
pub struct YoleckKnobClick;

/// The children of `entity` in the hierarchy `children_of` (the first entry for it), or none.
pub open spec fn children_in(children_of: Seq<(u64, Seq<u64>)>, entity: u64) -> Seq<u64>
    decreases children_of.len(),
{
    if children_of.len() == 0 {
        Seq::empty()
    } else if children_of[0].0 == entity {
        children_of[0].1
    } else {
        children_in(children_of.drop_first(), entity)
    }
}

/// Every child listed anywhere in the hierarchy.
pub open spec fn all_children(children_of: Seq<(u64, Seq<u64>)>) -> Seq<u64>
    decreases children_of.len(),
{
    if children_of.len() == 0 {
        Seq::empty()
    } else {
        children_of[0].1 + all_children(children_of.drop_first())
    }
}

pub open spec fn hierarchy_model(children_of: Seq<(u64, Vec<u64>)>) -> Seq<(u64, Seq<u64>)> {
    children_of.map_values(|e: (u64, Vec<u64>)| (e.0, e.1@))
}

proof fn lemma_children_in_all(children_of: Seq<(u64, Seq<u64>)>, entity: u64, c: u64)
    requires
        children_in(children_of, entity).contains(c),
    ensures
        all_children(children_of).contains(c),
    decreases children_of.len(),
{
    let rest = children_of.drop_first();
    if children_of[0].0 == entity {
        let k = choose|k: int| 0 <= k < children_of[0].1.len() && children_of[0].1[k] == c;
        assert((children_of[0].1 + all_children(rest))[k] == c);
    } else {
        lemma_children_in_all(rest, entity, c);
        let k = choose|k: int| 0 <= k < all_children(rest).len() && all_children(rest)[k] == c;
        assert((children_of[0].1 + all_children(rest))[children_of[0].1.len() + k] == c);
    }
}

proof fn lemma_unique_subset_len(s: Seq<u64>, t: Seq<u64>)
    requires
        s.no_duplicates(),
        forall|i: int| 0 <= i < s.len() ==> t.contains(#[trigger] s[i]),
    ensures
        s.len() <= t.len(),
{
    broadcast use vstd::seq_lib::seq_to_set_is_finite;

    s.unique_seq_to_set();
    t.lemma_cardinality_of_set();
    assert(s.to_set().subset_of(t.to_set())) by {
        assert forall|x: u64| s.to_set().contains(x) implies t.to_set().contains(x) by {
            let k = choose|k: int| 0 <= k < s.len() && s[k] == x;
            assert(t.contains(s[k]));
        }
    }
    vstd::set_lib::lemma_len_subset(s.to_set(), t.to_set());
}

/// Whether `visited` is a visit of the descendants of `roots` in `children_of`: each entity
/// once, each a root or a child of one visited before it, and every child of a visited entity
/// visited too.
pub open spec fn visits_descendants(
    visited: Seq<u64>,
    roots: Seq<u64>,
    children_of: Seq<(u64, Seq<u64>)>,
) -> bool {
    &&& visited.no_duplicates()
    &&& forall|i: int| 0 <= i < roots.len() ==> visited.contains(#[trigger] roots[i])
    &&& forall|k: int|
        0 <= k < visited.len() ==> roots.contains(#[trigger] visited[k]) || exists|j: int|
            0 <= j < k && children_in(children_of, visited[j]).contains(visited[k])
    &&& forall|k: int, c: u64|
        0 <= k < visited.len() && #[trigger] children_in(children_of, visited[k]).contains(c)
            ==> visited.contains(c)
}

/// The state of the depth-first visit: what was seen is what was visited or waits on the
/// stack, all of it comes from the hierarchy, and the first `expanded` visited entities have
/// all their children seen.
pub open spec fn visit_state(
    roots: Seq<u64>,
    h: Seq<(u64, Seq<u64>)>,
    seen: Seq<u64>,
    stack: Seq<u64>,
    visited: Seq<u64>,
    expanded: int,
) -> bool {
    &&& seen.no_duplicates()
    &&& visited.no_duplicates()
    &&& stack.no_duplicates()
    &&& forall|a: int, b: int|
        0 <= a < visited.len() && 0 <= b < stack.len() ==> #[trigger] visited[a] != #[trigger] stack[b]
    &&& forall|x: u64| #[trigger] seen.contains(x) <==> (visited.contains(x) || stack.contains(x))
    &&& forall|k: int| 0 <= k < seen.len() ==> (roots + all_children(h)).contains(#[trigger] seen[k])
    &&& forall|k: int| 0 <= k < roots.len() ==> seen.contains(#[trigger] roots[k])
    &&& forall|k: int|
        0 <= k < visited.len() ==> roots.contains(#[trigger] visited[k]) || exists|j: int|
            0 <= j < k && children_in(h, visited[j]).contains(visited[k])
    &&& forall|k: int|
        0 <= k < stack.len() ==> roots.contains(#[trigger] stack[k]) || exists|j: int|
            0 <= j < visited.len() && children_in(h, visited[j]).contains(stack[k])
    &&& 0 <= expanded <= visited.len()
    &&& forall|k: int, c: u64|
        0 <= k < expanded && #[trigger] children_in(h, visited[k]).contains(c) ==> seen.contains(c)
}

proof fn lemma_push_contains_u64(s: Seq<u64>, y: u64, x: u64)
    ensures
        s.push(y).contains(x) <==> (s.contains(x) || x == y),
{
    if s.contains(x) {
        let i = choose|i: int| 0 <= i < s.len() && s[i] == x;
        assert(s.push(y)[i] == x);
    }
    if x == y {
        assert(s.push(y)[s.len() as int] == x);
    }
    if s.push(y).contains(x) {
        let i = choose|i: int| 0 <= i < s.push(y).len() && s.push(y)[i] == x;
        if i < s.len() {
            assert(s[i] == x);
        }
    }
}

fn lookup_children(children_of: &Vec<(u64, Vec<u64>)>, entity: u64) -> (r: Option<&Vec<u64>>)
    ensures
        match r {
            Some(c) => c@ == children_in(hierarchy_model(children_of@), entity),
            None => children_in(hierarchy_model(children_of@), entity).len() == 0,
        },
{
    let ghost h = hierarchy_model(children_of@);
    let mut i: usize = 0;
    assert(h.skip(0) =~= h);
    while i < children_of.len()
        invariant
            i <= children_of.len(),
            h == hierarchy_model(children_of@),
            children_in(h, entity) == children_in(h.skip(i as int), entity),
        decreases children_of.len() - i,
    {
        assert(h.skip(i as int)[0] == h[i as int]);
        assert(h.skip(i as int).drop_first() =~= h.skip(i + 1));
        if children_of[i].0 == entity {
            return Some(&children_of[i].1);
        }
        i = i + 1;
    }
    None
}

/// The descendants of a parent marked as containing clickable children that get their clicks
/// routed to it: the descendants (found through `children_of`, from the parent's `children`)
/// that are in `should_add`, in the order of a depth-first visit. When there are any, the
/// parent loses its marker.
pub fn clickable_children(
    children: &Vec<u64>,
    children_of: &Vec<(u64, Vec<u64>)>,
    should_add: &Vec<u64>,
) -> (r: Vec<u64>)
    ensures
        exists|visited: Seq<u64>|
            visits_descendants(visited, children@, hierarchy_model(children_of@)) && r@
                == visited.filter(|e: u64| should_add@.contains(e)),
{
    let ghost h = hierarchy_model(children_of@);
    let ghost roots = children@;
    let ghost universe = roots + all_children(h);
    let ghost add = |e: u64| should_add@.contains(e);
    let mut seen: Vec<u64> = Vec::new();
    let mut stack: Vec<u64> = Vec::new();
    let mut i: usize = 0;
    while i < children.len()
        invariant
            i <= children.len(),
            roots == children@,
            universe == roots + all_children(h),
            seen@ == stack@,
            seen@.no_duplicates(),
            forall|k: int| 0 <= k < seen@.len() ==> universe.contains(#[trigger] seen@[k]),
            forall|k: int| 0 <= k < seen@.len() ==> roots.contains(#[trigger] seen@[k]),
            forall|k: int| 0 <= k < i ==> seen@.contains(#[trigger] roots[k]),
        decreases children.len() - i,
    {
        let c = children[i];
        let ghost s0 = seen@;
        assert(roots.contains(c)) by {
            assert(roots[i as int] == c);
        }
        assert(universe.contains(c)) by {
            assert(universe[i as int] == c);
        }
        if !crate::entity_management::contains_u64(&seen, c) {
            seen.push(c);
            stack.push(c);
            proof {
                assert forall|a: int, b: int| 0 <= a < b < seen@.len() implies seen@[a] != seen@[b] by {
                    if b == s0.len() {
                        assert(s0.contains(seen@[a]) || a == b) by {
                            assert(s0[a] == seen@[a]);
                        }
                    }
                }
            }
        }
        proof {
            assert forall|k: int| 0 <= k < i + 1 implies seen@.contains(#[trigger] roots[k]) by {
                lemma_push_contains_u64(s0, c, roots[k]);
                if k < i {
                    assert(s0.contains(roots[k]));
                }
            }
        }
        i = i + 1;
    }
    let ghost mut visited: Seq<u64> = Seq::empty();
    let mut added: Vec<u64> = Vec::new();
    proof {
        assert(visited.filter(add) =~= Seq::<u64>::empty());
        assert forall|x: u64| #[trigger] seen@.contains(x) <==> (visited.contains(x) || stack@.contains(x)) by {}
    }
    while stack.len() > 0
        invariant
            roots == children@,
            universe == roots + all_children(h),
            h == hierarchy_model(children_of@),
            add == (|e: u64| should_add@.contains(e)),
            visit_state(roots, h, seen@, stack@, visited, visited.len() as int),
            added@ == visited.filter(add),
        decreases universe.len() - seen@.len(), stack@.len(),
    {
        proof {
            lemma_unique_subset_len(seen@, universe);
        }
        let ghost stack0 = stack@;
        let ghost visited0 = visited;
        let ghost seen0 = seen@;
        let child = stack.pop().unwrap();
        proof {
            assert(stack0 =~= stack@.push(child));
            visited = visited.push(child);
            assert(child == stack0[stack0.len() - 1]);
            assert forall|a: int| 0 <= a < visited0.len() implies visited0[a] != child by {
                assert(visited0[a] != stack0[stack0.len() - 1]);
            }
            assert forall|b: int| 0 <= b < stack@.len() implies stack@[b] != child by {
                assert(stack0[b] != stack0[stack0.len() - 1]);
            }
            assert forall|x: u64| #[trigger] seen@.contains(x) <==> (visited.contains(x)
                || stack@.contains(x)) by {
                lemma_push_contains_u64(visited0, child, x);
                lemma_push_contains_u64(stack@, child, x);
            }
            assert forall|k: int|
                0 <= k < visited.len() implies roots.contains(#[trigger] visited[k]) || exists|j: int|
                0 <= j < k && children_in(h, visited[j]).contains(visited[k]) by {
                if k < visited0.len() {
                    assert(visited[k] == visited0[k]);
                    if !roots.contains(visited0[k]) {
                        let j = choose|j: int|
                            0 <= j < k && children_in(h, visited0[j]).contains(visited0[k]);
                        assert(visited[j] == visited0[j]);
                    }
                } else {
                    assert(stack0[stack0.len() - 1] == child);
                    if !roots.contains(child) {
                        let j = choose|j: int|
                            0 <= j < visited0.len() && children_in(h, visited0[j]).contains(
                                stack0[stack0.len() - 1],
                            );
                        assert(visited[j] == visited0[j]);
                    }
                }
            }
            assert forall|k: int|
                0 <= k < stack@.len() implies roots.contains(#[trigger] stack@[k]) || exists|j: int|
                0 <= j < visited.len() && children_in(h, visited[j]).contains(stack@[k]) by {
                assert(stack@[k] == stack0[k]);
                if !roots.contains(stack0[k]) {
                    let j = choose|j: int|
                        0 <= j < visited0.len() && children_in(h, visited0[j]).contains(stack0[k]);
                    assert(visited[j] == visited0[j]);
                }
            }
            assert forall|k: int, c: u64|
                0 <= k < visited0.len() && #[trigger] children_in(h, visited[k]).contains(c) implies seen@.contains(
                c,
            ) by {
                assert(visited[k] == visited0[k]);
            }
            assert(visit_state(roots, h, seen@, stack@, visited, visited0.len() as int));
        }
        match lookup_children(children_of, child) {
            Some(cc) => {
                let mut j: usize = 0;
                while j < cc.len()
                    invariant
                        j <= cc.len(),
                        cc@ == children_in(h, child),
                        roots == children@,
                        universe == roots + all_children(h),
                        h == hierarchy_model(children_of@),
                        visited.len() > 0,
                        visited.last() == child,
                        visit_state(roots, h, seen@, stack@, visited, visited.len() - 1),
                        seen@.len() >= seen0.len(),
                        seen@.len() == seen0.len() ==> stack@.len() < stack0.len(),
                        forall|q: int| 0 <= q < j ==> seen@.contains(#[trigger] cc@[q]),
                    decreases cc.len() - j,
                {
                    let c = cc[j];
                    let ghost s1 = seen@;
                    let ghost st1 = stack@;
                    if !crate::entity_management::contains_u64(&seen, c) {
                        seen.push(c);
                        stack.push(c);
                        proof {
                            assert(children_in(h, child).contains(c)) by {
                                assert(cc@[j as int] == c);
                            }
                            lemma_children_in_all(h, child, c);
                            assert(universe.contains(c)) by {
                                let m = choose|m: int|
                                    0 <= m < all_children(h).len() && all_children(h)[m] == c;
                                assert(universe[roots.len() + m] == c);
                            }
                            assert forall|a: int, b: int| 0 <= a < b < seen@.len() implies seen@[a]
                                != seen@[b] by {
                                if b == s1.len() {
                                    assert(s1[a] == seen@[a]);
                                    assert(s1.contains(s1[a]));
                                }
                            }
                            assert forall|a: int, b: int| 0 <= a < b < stack@.len() implies stack@[a]
                                != stack@[b] by {
                                if b == st1.len() {
                                    assert(st1[a] == stack@[a]);
                                    assert(s1.contains(st1[a]));
                                }
                            }
                            assert forall|a: int, b: int|
                                0 <= a < visited.len() && 0 <= b < stack@.len() implies #[trigger] visited[a]
                                != #[trigger] stack@[b] by {
                                if b == st1.len() {
                                    assert(s1.contains(visited[a]));
                                } else {
                                    assert(stack@[b] == st1[b]);
                                }
                            }
                            assert forall|x: u64| #[trigger] seen@.contains(x) <==> (visited.contains(x)
                                || stack@.contains(x)) by {
                                lemma_push_contains_u64(s1, c, x);
                                lemma_push_contains_u64(st1, c, x);
                            }
                            assert forall|k: int|
                                0 <= k < seen@.len() implies universe.contains(#[trigger] seen@[k]) by {
                                if k < s1.len() {
                                    assert(seen@[k] == s1[k]);
                                }
                            }
                            assert forall|k: int| 0 <= k < roots.len() implies seen@.contains(
                                #[trigger] roots[k],
                            ) by {
                                lemma_push_contains_u64(s1, c, roots[k]);
                            }
                            assert forall|k: int|
                                0 <= k < stack@.len() implies roots.contains(#[trigger] stack@[k])
                                || exists|jj: int|
                                0 <= jj < visited.len() && children_in(h, visited[jj]).contains(
                                    stack@[k],
                                ) by {
                                if k < st1.len() {
                                    assert(stack@[k] == st1[k]);
                                } else {
                                    assert(children_in(h, visited[visited.len() - 1]).contains(
                                        stack@[k],
                                    ));
                                }
                            }
                            assert forall|k: int, x: u64|
                                0 <= k < visited.len() - 1 && #[trigger] children_in(
                                    h,
                                    visited[k],
                                ).contains(x) implies seen@.contains(x) by {
                                lemma_push_contains_u64(s1, c, x);
                            }
                            assert forall|q: int| 0 <= q < j + 1 implies seen@.contains(
                                #[trigger] cc@[q],
                            ) by {
                                lemma_push_contains_u64(s1, c, cc@[q]);
                            }
                        }
                    }
                    j = j + 1;
                }
            },
            None => {},
        }
        proof {
            assert forall|k: int, x: u64|
                0 <= k < visited.len() && #[trigger] children_in(h, visited[k]).contains(x) implies seen@.contains(
                x,
            ) by {
                if k == visited.len() - 1 {
                    let q = choose|q: int|
                        0 <= q < children_in(h, visited[k]).len() && children_in(h, visited[k])[q]
                            == x;
                }
            }
            visited0.lemma_filter_push(child, add);
        }
        if crate::entity_management::contains_u64(should_add, child) {
            added.push(child);
        }
        proof {
            lemma_unique_subset_len(seen@, universe);
        }
    }
    proof {
        assert(visits_descendants(visited, roots, h)) by {
            assert forall|k: int, c: u64|
                0 <= k < visited.len() && #[trigger] children_in(h, visited[k]).contains(c) implies visited.contains(
                c,
            ) by {
                assert(seen@.contains(c));
                if stack@.contains(c) {
                    let m = choose|m: int| 0 <= m < stack@.len() && stack@[m] == c;
                }
            }
            assert forall|i: int| 0 <= i < roots.len() implies visited.contains(#[trigger] roots[i]) by {
                assert(seen@.contains(roots[i]));
                if stack@.contains(roots[i]) {
                    let m = choose|m: int| 0 <= m < stack@.len() && stack@[m] == roots[i];
                }
            }
        }
    }
    added
}

} // verus!
