use vstd::prelude::*;

verus! {

/// Why an entity is being populated.
#[derive(Debug, Clone, Copy, PartialEq, Eq, Structural)]
pub enum PopulateReason {
    EditorInit,
    EditorUpdate,
    RealGame,
}

/// A context for populating an entity.
#[derive(Debug, Clone, Copy, PartialEq, Eq, Structural)]
pub struct YoleckPopulateContext {
    pub(crate) reason: PopulateReason,
}

impl View for YoleckPopulateContext {
    type V = PopulateReason;

    closed spec fn view(&self) -> PopulateReason {
        self.reason
    }
}

impl YoleckPopulateContext {
    pub fn new(reason: PopulateReason) -> (r: Self)
        ensures
            r@ == reason,
    {
        YoleckPopulateContext { reason }
    }

    /// `true` if the entity is created in editor mode, `false` if created in playtest or actual game.
    pub fn is_in_editor(&self) -> (r: bool)
        ensures
            r == (self@ != PopulateReason::RealGame),
    {
        match self.reason {
            PopulateReason::EditorInit => true,
            PopulateReason::EditorUpdate => true,
            PopulateReason::RealGame => false,
        }
    }

    /// `true` if this is this is the first time the entity is populated, `false` if the entity was
    /// popultated before.
    pub fn is_first_time(&self) -> (r: bool)
        ensures
            r == (self@ != PopulateReason::EditorUpdate),
    {
        match self.reason {
            PopulateReason::EditorInit => true,
            PopulateReason::EditorUpdate => false,
            PopulateReason::RealGame => true,
        }
    }
}

/// A marker that tells apart the entities spawned by one populate system; each system gets its
/// own.
#[derive(Debug, Clone, Copy, PartialEq, Eq, Structural)]
pub struct YoleckSystemMarker(usize);

impl View for YoleckSystemMarker {
    type V = usize;

    closed spec fn view(&self) -> usize {
        self.0
    }
}

/// Hands out the markers: 1, 2, 3, and so on.
pub struct MarkerGenerator {
    next: usize,
}

impl View for MarkerGenerator {
    /// The marker that is handed out next.
    type V = usize;

    closed spec fn view(&self) -> usize {
        self.next
    }
}

impl MarkerGenerator {
    pub fn new() -> (r: Self)
        ensures
            r@ == 1,
    {
        MarkerGenerator { next: 1 }
    }

    /// A marker that no earlier call handed out.
    pub fn next_marker(&mut self) -> (r: YoleckSystemMarker)
        requires
            old(self)@ < usize::MAX,
        ensures
            r@ == old(self)@,
            final(self)@ == old(self)@ + 1,
    {
        let m = YoleckSystemMarker(self.next);
        self.next = self.next + 1;
        m
    }
}

/// The children of `parent` marked with `marker`, in the order they were visited.
pub open spec fn marked_children_of(
    descendants: Seq<(u64, u64, YoleckSystemMarker)>,
    marker: YoleckSystemMarker,
    parent: u64,
) -> Seq<u64> {
    descendants.filter(marked_with(marker, parent)).map_values(child_of_descendant())
}

/// Whether a descendant is a child of `parent` marked with `marker`.
pub open spec fn marked_with(marker: YoleckSystemMarker, parent: u64) -> spec_fn(
    (u64, u64, YoleckSystemMarker),
) -> bool {
    |d: (u64, u64, YoleckSystemMarker)| d.2 == marker && d.1 == parent
}

/// The entity of a descendant.
pub open spec fn child_of_descendant() -> spec_fn((u64, u64, YoleckSystemMarker)) -> u64 {
    |d: (u64, u64, YoleckSystemMarker)| d.0
}

/// The index of the group of `parent`, or -1.
pub open spec fn group_index(groups: Seq<(u64, Seq<u64>)>, parent: u64) -> int
    decreases groups.len(),
{
    if groups.len() == 0 {
        -1
    } else if groups.last().0 == parent {
        groups.len() - 1
    } else {
        group_index(groups.drop_last(), parent)
    }
}

proof fn lemma_group_index(groups: Seq<(u64, Seq<u64>)>, parent: u64)
    ensures
        -1 <= group_index(groups, parent) < groups.len(),
        group_index(groups, parent) >= 0 ==> groups[group_index(groups, parent)].0 == parent,
        group_index(groups, parent) < 0 ==> forall|i: int|
            0 <= i < groups.len() ==> #[trigger] groups[i].0 != parent,
    decreases groups.len(),
{
    if groups.len() > 0 {
        lemma_group_index(groups.drop_last(), parent);
        assert forall|i: int| 0 <= i < groups.len() - 1 implies #[trigger] groups[i] == groups.drop_last()[i] by {}
    }
}

pub open spec fn groups_model(groups: Seq<(u64, Vec<u64>)>) -> Seq<(u64, Seq<u64>)> {
    groups.map_values(|g: (u64, Vec<u64>)| (g.0, g.1@))
}

/// Whether `groups` gathers the children of `descendants` marked with `marker` by parent: each
/// parent once, with its marked children in order, and every parent of a marked child there.
pub open spec fn groups_marked_children(
    groups: Seq<(u64, Seq<u64>)>,
    descendants: Seq<(u64, u64, YoleckSystemMarker)>,
    marker: YoleckSystemMarker,
) -> bool {
    &&& forall|i: int, j: int| 0 <= i < j < groups.len() ==> #[trigger] groups[i].0 != #[trigger] groups[j].0
    &&& forall|i: int|
        0 <= i < groups.len() ==> (#[trigger] groups[i]).1 == marked_children_of(
            descendants,
            marker,
            groups[i].0,
        )
    &&& forall|k: int|
        0 <= k < descendants.len() && (#[trigger] descendants[k]).2 == marker ==> group_index(
            groups,
            descendants[k].1,
        ) >= 0
}

/// The entities a populate system spawned earlier (marked with its `marker`), to be despawned
/// before it populates again: from the descendants of the populated entity, given as (child, its
/// parent, its marker) in the order visited, the children marked with `marker`, by parent. The
/// caller detaches each group from its parent and despawns it.
pub fn marked_children_by_parent(
    marker: YoleckSystemMarker,
    descendants: &Vec<(u64, u64, YoleckSystemMarker)>,
) -> (r: Vec<(u64, Vec<u64>)>)
    ensures
        groups_marked_children(groups_model(r@), descendants@, marker),
{
    let ghost ds = descendants@;
    let mut groups: Vec<(u64, Vec<u64>)> = Vec::new();
    let mut k: usize = 0;
    assert(groups_model(groups@) =~= Seq::<(u64, Seq<u64>)>::empty());
    while k < descendants.len()
        invariant
            k <= descendants.len(),
            ds == descendants@,
            groups_marked_children(groups_model(groups@), ds.take(k as int), marker),
        decreases descendants.len() - k,
    {
        let (child, parent, m) = descendants[k];
        let ghost d = ds[k as int];
        let ghost g0 = groups_model(groups@);
        let ghost t0 = ds.take(k as int);
        let ghost t1 = ds.take(k + 1);
        assert(t1 =~= t0.push(d));
        proof {
            lemma_group_index(g0, parent);
            assert forall|p: u64| #[trigger] marked_children_of(t1, marker, p) == if d.2 == marker
                && d.1 == p {
                marked_children_of(t0, marker, p).push(d.0)
            } else {
                marked_children_of(t0, marker, p)
            } by {
                let f = marked_with(marker, p);
                t0.lemma_filter_push(d, f);
                assert(t0.filter(f).push(d).map_values(child_of_descendant()) =~= t0.filter(
                    f,
                ).map_values(child_of_descendant()).push(d.0));
            }
        }
        if m == marker {
            let mut found: Option<usize> = None;
            let mut j: usize = 0;
            while j < groups.len()
                invariant
                    j <= groups.len(),
                    g0 == groups_model(groups@),
                    match found {
                        Some(i) => i < groups.len() && g0[i as int].0 == parent,
                        None => forall|a: int| 0 <= a < j ==> #[trigger] g0[a].0 != parent,
                    },
                decreases groups.len() - j,
            {
                if found.is_none() && groups[j].0 == parent {
                    found = Some(j);
                }
                j = j + 1;
            }
            match found {
                Some(i) => {
                    let (p, mut children) = groups.remove(i);
                    children.push(child);
                    groups.insert(i, (p, children));
                    proof {
                        let g1 = groups_model(groups@);
                        assert(g1 =~= g0.update(i as int, (parent, g0[i as int].1.push(child))));
                        assert(i as int == group_index(g0, parent)) by {
                            if group_index(g0, parent) != i as int {
                                let gi = group_index(g0, parent);
                                assert(g0[gi].0 == g0[i as int].0);
                            }
                        }
                        assert forall|a: int| 0 <= a < g1.len() implies group_index(g1, g1[a].0) >= 0 by {
                            lemma_group_index(g1, g1[a].0);
                        }
                        assert forall|q: int|
                            0 <= q < t1.len() && (#[trigger] t1[q]).2 == marker implies group_index(
                            g1,
                            t1[q].1,
                        ) >= 0 by {
                            lemma_group_index(g1, t1[q].1);
                            if q < k {
                                assert(t1[q] == t0[q]);
                                lemma_group_index(g0, t0[q].1);
                                let gi = group_index(g0, t0[q].1);
                                assert(g1[gi].0 == t1[q].1);
                            } else {
                                assert(g1[i as int].0 == t1[q].1);
                            }
                        }
                    }
                },
                None => {
                    let mut children: Vec<u64> = Vec::new();
                    children.push(child);
                    groups.push((parent, children));
                    proof {
                        let g1 = groups_model(groups@);
                        assert(g1 =~= g0.push((parent, seq![child])));
                        assert(marked_children_of(t0, marker, parent) =~= Seq::<u64>::empty()) by {
                            let f = marked_with(marker, parent);
                            assert forall|q: int| 0 <= q < t0.len() implies !f(#[trigger] t0[q]) by {
                                if f(t0[q]) {
                                    lemma_group_index(g0, t0[q].1);
                                    let gi = group_index(g0, t0[q].1);
                                    assert(g0[gi].0 != parent);
                                }
                            }
                            assert(t0.all(|x: (u64, u64, YoleckSystemMarker)| !f(x)));
                            t0.lemma_all_neg_filter_empty(f);
                        }
                        assert(marked_children_of(t1, marker, parent) =~= seq![child]);
                        assert forall|q: int|
                            0 <= q < t1.len() && (#[trigger] t1[q]).2 == marker implies group_index(
                            g1,
                            t1[q].1,
                        ) >= 0 by {
                            lemma_group_index(g1, t1[q].1);
                            if q < k {
                                assert(t1[q] == t0[q]);
                                lemma_group_index(g0, t0[q].1);
                                let gi = group_index(g0, t0[q].1);
                                assert(g1[gi].0 == t1[q].1);
                            } else {
                                assert(g1[g0.len() as int].0 == t1[q].1);
                            }
                        }
                    }
                },
            }
        } else {
            proof {
                assert forall|q: int|
                    0 <= q < t1.len() && (#[trigger] t1[q]).2 == marker implies group_index(
                    g0,
                    t1[q].1,
                ) >= 0 by {
                    assert(t1[q] == t0[q]);
                }
            }
        }
        k = k + 1;
    }
    assert(ds.take(k as int) =~= ds);
    groups
}

/// What a populate system uses to tell apart the entities it spawned: its own marker.
pub struct YoleckMarking {
    designated_marker: YoleckSystemMarker,
}

impl YoleckMarking {
    pub fn new(designated_marker: YoleckSystemMarker) -> (r: Self)
        ensures
            r.marker() == designated_marker,
    {
        YoleckMarking { designated_marker }
    }

    pub closed spec fn marker_spec(&self) -> YoleckSystemMarker {
        self.designated_marker
    }

    /// The marker to put on the entities this system spawns.
    #[verifier::when_used_as_spec(marker_spec)]
    pub fn marker(&self) -> (r: YoleckSystemMarker)
        ensures
            r == self.marker_spec(),
    {
        self.designated_marker
    }

    /// The children this system spawned under the populated entity, to be despawned before it
    /// populates again (see [`marked_children_by_parent`]).
    pub fn despawn_marked(&self, descendants: &Vec<(u64, u64, YoleckSystemMarker)>) -> (r: Vec<
        (u64, Vec<u64>),
    >)
        ensures
            groups_marked_children(groups_model(r@), descendants@, self.marker()),
    {
        marked_children_by_parent(self.designated_marker, descendants)
    }
}

} // verus!
