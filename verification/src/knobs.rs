use vstd::prelude::*;

use crate::editor::YoleckPassedData;
use crate::json::str_equal;

verus! {

/// A knob entity kept between frames, by the key the edit system asked for it with. A key is a
/// value of some type; `key_type` tells which (the app numbers its key types), and keys of
/// different types never match.
pub struct CachedKnob {
    pub key_type: u64,
    pub key: String,
    pub entity: u64,
    /// Whether the knob was asked for since the cache was last cleaned.
    pub keep_alive: bool,
}

/// The knob entities of the entity being edited, by key. No key occurs twice.
pub struct YoleckKnobsCache {
    entries: Vec<CachedKnob>,
}

/// The model of a cached knob: its key (the key's type with its text), its entity and whether it
/// was asked for.
pub open spec fn knob_model(k: CachedKnob) -> ((u64, Seq<char>), u64, bool) {
    ((k.key_type, k.key@), k.entity, k.keep_alive)
}

/// The index of the knob with `key`, or -1.
pub open spec fn knob_index(s: Seq<((u64, Seq<char>), u64, bool)>, key: (u64, Seq<char>)) -> int
    decreases s.len(),
{
    if s.len() == 0 {
        -1
    } else if s.last().0 == key {
        s.len() - 1
    } else {
        knob_index(s.drop_last(), key)
    }
}

/// No two knobs share a key.
pub open spec fn keys_unique(s: Seq<((u64, Seq<char>), u64, bool)>) -> bool {
    forall|i: int, j: int| 0 <= i < j < s.len() ==> #[trigger] s[i].0 != #[trigger] s[j].0
}

/// The knobs that were asked for since the last cleaning, now waiting to be asked for again.
pub open spec fn kept_knobs(s: Seq<((u64, Seq<char>), u64, bool)>) -> Seq<((u64, Seq<char>), u64, bool)> {
    s.filter(|k: ((u64, Seq<char>), u64, bool)| k.2).map_values(
        |k: ((u64, Seq<char>), u64, bool)| (k.0, k.1, false),
    )
}

/// The entities of the knobs that were not asked for since the last cleaning.
pub open spec fn untouched_entities(s: Seq<((u64, Seq<char>), u64, bool)>) -> Seq<u64> {
    s.filter(|k: ((u64, Seq<char>), u64, bool)| !k.2).map_values(|k: ((u64, Seq<char>), u64, bool)| k.1)
}

pub proof fn lemma_knob_index(s: Seq<((u64, Seq<char>), u64, bool)>, key: (u64, Seq<char>))
    ensures
        -1 <= knob_index(s, key) < s.len(),
        knob_index(s, key) >= 0 ==> s[knob_index(s, key)].0 == key,
        knob_index(s, key) < 0 ==> forall|i: int| 0 <= i < s.len() ==> #[trigger] s[i].0 != key,
    decreases s.len(),
{
    if s.len() > 0 {
        lemma_knob_index(s.drop_last(), key);
        assert forall|i: int| 0 <= i < s.len() - 1 implies #[trigger] s[i] == s.drop_last()[i] by {}
    }
}

impl View for YoleckKnobsCache {
    type V = Seq<((u64, Seq<char>), u64, bool)>;

    closed spec fn view(&self) -> Seq<((u64, Seq<char>), u64, bool)> {
        self.entries@.map_values(|k: CachedKnob| knob_model(k))
    }
}

impl YoleckKnobsCache {
    pub closed spec fn wf(&self) -> bool {
        keys_unique(self@)
    }

    pub fn new() -> (r: Self)
        ensures
            r.wf(),
            r@ == Seq::<((u64, Seq<char>), u64, bool)>::empty(),
    {
        let r = YoleckKnobsCache { entries: Vec::new() };
        assert(r@ =~= Seq::<((u64, Seq<char>), u64, bool)>::empty());
        r
    }

    /// Ask for the knob with `key`, a key of type `key_type`. When it is cached, it is kept alive and its entity returned;
    /// otherwise `None` comes back and the caller spawns the knob and [adds](Self::add_new) it.
    pub fn access(&mut self, key_type: u64, key: &str) -> (r: Option<u64>)
        requires
            old(self).wf(),
        ensures
            final(self).wf(),
            ({
                let i = knob_index(old(self)@, (key_type, key@));
                if i >= 0 {
                    &&& r == Some(old(self)@[i].1)
                    &&& final(self)@ == old(self)@.update(i, ((key_type, key@), old(self)@[i].1, true))
                } else {
                    &&& r is None
                    &&& final(self)@ == old(self)@
                }
            }),
    {
        proof {
            lemma_knob_index(self@, (key_type, key@));
        }
        let ghost s0 = self@;
        let mut i = self.entries.len();
        assert(s0.take(i as int) =~= s0);
        while i > 0
            invariant
                i <= self.entries.len(),
                keys_unique(s0),
                self.entries@ == old(self).entries@,
                s0 == self@,
                knob_index(s0, (key_type, key@)) == knob_index(s0.take(i as int), (key_type, key@)),
            decreases i,
        {
            assert(s0.take(i as int).drop_last() =~= s0.take(i - 1));
            assert(s0[i - 1] == knob_model(self.entries@[i - 1]));
            if self.entries[i - 1].key_type == key_type && str_equal(self.entries[i - 1].key.as_str(), key) {
                let entity = self.entries[i - 1].entity;
                let old_entry = self.entries[i - 1].key.clone();
                let idx = i - 1;
                let ghost e0 = self.entries@;
                self.entries.set(idx, CachedKnob { key_type, key: old_entry, entity, keep_alive: true });
                proof {
                    assert(self@ =~= s0.update(idx as int, ((key_type, key@), s0[idx as int].1, true)));
                    assert forall|a: int, b: int| 0 <= a < b < self@.len() implies #[trigger] self@[a].0
                        != #[trigger] self@[b].0 by {
                        assert(s0[a].0 != s0[b].0);
                    }
                }
                return Some(entity);
            }
            i = i - 1;
        }
        assert(s0.take(0) =~= Seq::<((u64, Seq<char>), u64, bool)>::empty());
        None
    }

    /// Add the knob spawned for `key`, a key of type `key_type` that is not cached, kept alive.
    pub fn add_new(&mut self, key_type: u64, key: &str, entity: u64)
        requires
            old(self).wf(),
            knob_index(old(self)@, (key_type, key@)) < 0,
        ensures
            final(self).wf(),
            final(self)@ == old(self)@.push(((key_type, key@), entity, true)),
    {
        proof {
            lemma_knob_index(self@, (key_type, key@));
        }
        self.entries.push(
            CachedKnob { key_type, key: String::from_str(key), entity, keep_alive: true },
        );
        assert(self@ =~= old(self)@.push(((key_type, key@), entity, true)));
    }

    /// The end of a frame in which the same entity was edited: the knobs that were not asked for
    /// are dropped and their entities returned for despawning; the others wait to be asked for
    /// again.
    pub fn clean_untouched(&mut self) -> (r: Vec<u64>)
        requires
            old(self).wf(),
        ensures
            final(self).wf(),
            final(self)@ == kept_knobs(old(self)@),
            r@ == untouched_entities(old(self)@),
    {
        let ghost s0 = self@;
        let ghost keep = |k: ((u64, Seq<char>), u64, bool)| k.2;
        let ghost drop = |k: ((u64, Seq<char>), u64, bool)| !k.2;
        let ghost reset = |k: ((u64, Seq<char>), u64, bool)| (k.0, k.1, false);
        let ghost ent = |k: ((u64, Seq<char>), u64, bool)| k.1;
        let mut old_entries: Vec<CachedKnob> = Vec::new();
        std::mem::swap(&mut old_entries, &mut self.entries);
        let mut removed: Vec<u64> = Vec::new();
        let mut i: usize = 0;
        assert(s0.take(0) =~= Seq::<((u64, Seq<char>), u64, bool)>::empty());
        assert(self@ =~= kept_knobs(s0.take(0)));
        assert(removed@ =~= untouched_entities(s0.take(0)));
        while i < old_entries.len()
            invariant
                i <= old_entries.len(),
                s0 == old_entries@.map_values(|k: CachedKnob| knob_model(k)),
                keys_unique(s0),
                keep == (|k: ((u64, Seq<char>), u64, bool)| k.2),
                drop == (|k: ((u64, Seq<char>), u64, bool)| !k.2),
                self@ == kept_knobs(s0.take(i as int)),
                removed@ == untouched_entities(s0.take(i as int)),
            decreases old_entries.len() - i,
        {
            let e = &old_entries[i];
            let ghost m = s0[i as int];
            assert(m == knob_model(old_entries@[i as int]));
            assert(s0.take(i + 1) =~= s0.take(i as int).push(m));
            proof {
                s0.take(i as int).lemma_filter_push(m, keep);
                s0.take(i as int).lemma_filter_push(m, drop);
            }
            if e.keep_alive {
                let ghost before = self@;
                self.entries.push(
                    CachedKnob { key_type: e.key_type, key: e.key.clone(), entity: e.entity, keep_alive: false },
                );
                assert(self@ =~= before.push((m.0, m.1, false)));
                assert(kept_knobs(s0.take(i + 1)) =~= kept_knobs(s0.take(i as int)).push(
                    (m.0, m.1, false),
                ));
                assert(untouched_entities(s0.take(i + 1)) =~= untouched_entities(s0.take(i as int)));
            } else {
                removed.push(e.entity);
                assert(kept_knobs(s0.take(i + 1)) =~= kept_knobs(s0.take(i as int)));
                assert(untouched_entities(s0.take(i + 1)) =~= untouched_entities(
                    s0.take(i as int),
                ).push(m.1));
            }
            i = i + 1;
        }
        assert(s0.take(i as int) =~= s0);
        proof {
            lemma_kept_keys_unique(s0);
        }
        removed
    }

    /// Drop every knob (the edited entity changed) and return their entities for despawning.
    pub fn drain(&mut self) -> (r: Vec<u64>)
        requires
            old(self).wf(),
        ensures
            final(self).wf(),
            final(self)@ == Seq::<((u64, Seq<char>), u64, bool)>::empty(),
            r@ == old(self)@.map_values(|k: ((u64, Seq<char>), u64, bool)| k.1),
    {
        let mut old_entries: Vec<CachedKnob> = Vec::new();
        std::mem::swap(&mut old_entries, &mut self.entries);
        let mut r: Vec<u64> = Vec::new();
        let mut i: usize = 0;
        while i < old_entries.len()
            invariant
                i <= old_entries.len(),
                old(self)@ == old_entries@.map_values(|k: CachedKnob| knob_model(k)),
                r@ == old(self)@.take(i as int).map_values(|k: ((u64, Seq<char>), u64, bool)| k.1),
            decreases old_entries.len() - i,
        {
            r.push(old_entries[i].entity);
            assert(old(self)@.take(i + 1) =~= old(self)@.take(i as int).push(old(self)@[i as int]));
            assert(r@ =~= old(self)@.take(i + 1).map_values(|k: ((u64, Seq<char>), u64, bool)| k.1));
            i = i + 1;
        }
        assert(old(self)@.take(i as int) =~= old(self)@);
        assert(self@ =~= Seq::<((u64, Seq<char>), u64, bool)>::empty());
        r
    }

    /// The knobs' part of the end of an editing frame: when the edited entity changed, every knob
    /// is dropped and `previously_edited` becomes the new one; otherwise the untouched knobs are.
    /// Returns the knob entities to despawn.
    pub fn finish_frame(&mut self, previously_edited: &mut Option<u64>, being_edited: Option<u64>) -> (r:
        Vec<u64>)
        requires
            old(self).wf(),
        ensures
            final(self).wf(),
            *final(previously_edited) == being_edited,
            *old(previously_edited) != being_edited ==> {
                &&& final(self)@ == Seq::<((u64, Seq<char>), u64, bool)>::empty()
                &&& r@ == old(self)@.map_values(|k: ((u64, Seq<char>), u64, bool)| k.1)
            },
            *old(previously_edited) == being_edited ==> {
                &&& final(self)@ == kept_knobs(old(self)@)
                &&& r@ == untouched_entities(old(self)@)
            },
    {
        let changed = match (*previously_edited, being_edited) {
            (Some(a), Some(b)) => a != b,
            (None, None) => false,
            _ => true,
        };
        if changed {
            *previously_edited = being_edited;
            self.drain()
        } else {
            self.clean_untouched()
        }
    }
}

proof fn lemma_kept_keys_unique(s: Seq<((u64, Seq<char>), u64, bool)>)
    requires
        keys_unique(s),
    ensures
        keys_unique(kept_knobs(s)),
    decreases s.len(),
{
    let keep = |k: ((u64, Seq<char>), u64, bool)| k.2;
    let reset = |k: ((u64, Seq<char>), u64, bool)| (k.0, k.1, false);
    if s.len() > 0 {
        let t = s.drop_last();
        assert(keys_unique(t)) by {
            assert forall|i: int, j: int| 0 <= i < j < t.len() implies #[trigger] t[i].0 != #[trigger] t[j].0 by {
                assert(s[i].0 != s[j].0);
            }
        }
        lemma_kept_keys_unique(t);
        assert(s =~= t.push(s.last()));
        t.lemma_filter_push(s.last(), keep);
        if s.last().2 {
            let kt = kept_knobs(t);
            assert(kept_knobs(s) =~= kt.push((s.last().0, s.last().1, false)));
            assert forall|i: int| 0 <= i < kt.len() implies #[trigger] kt[i].0 != s.last().0 by {
                let f = t.filter(keep);
                assert(kt[i] == reset(f[i]));
                t.lemma_filter_contains_rev(keep, f[i]);
                assert(f.contains(f[i]));
                let j = choose|j: int| 0 <= j < t.len() && t[j] == f[i];
                assert(s[j] == t[j]);
                assert(s[j].0 != s[s.len() - 1].0);
            }
        } else {
            assert(kept_knobs(s) =~= kept_knobs(t));
        }
    }
}

/// A knob survives a frame only if it was asked for during it: after a cleaning, the next
/// cleaning with no knob asked for in between drops every knob.
pub proof fn lemma_clean_twice_drops_all(s: Seq<((u64, Seq<char>), u64, bool)>)
    ensures
        kept_knobs(kept_knobs(s)) == Seq::<((u64, Seq<char>), u64, bool)>::empty(),
        untouched_entities(kept_knobs(s)) == kept_knobs(s).map_values(
            |k: ((u64, Seq<char>), u64, bool)| k.1,
        ),
{
    let keep = |k: ((u64, Seq<char>), u64, bool)| k.2;
    let drop = |k: ((u64, Seq<char>), u64, bool)| !k.2;
    let k = kept_knobs(s);
    assert forall|i: int| 0 <= i < k.len() implies !(#[trigger] k[i]).2 by {}
    assert(k.filter(keep) =~= Seq::<((u64, Seq<char>), u64, bool)>::empty()) by {
        k.lemma_all_neg_filter_empty(keep);
    }
    assert(k.filter(drop) =~= k) by {
        lemma_filter_all(k, drop);
    }
}

proof fn lemma_filter_all(s: Seq<((u64, Seq<char>), u64, bool)>, p: spec_fn(((u64, Seq<char>), u64, bool)) -> bool)
    requires
        forall|i: int| 0 <= i < s.len() ==> p(#[trigger] s[i]),
    ensures
        s.filter(p) == s,
    decreases s.len(),
{
    reveal(Seq::filter);
    if s.len() > 0 {
        lemma_filter_all(s.drop_last(), p);
        assert(s.drop_last().push(s.last()) =~= s);
    } else {
        assert(s.filter(p) =~= s);
    }
}

/// Asking again for a knob that was just added finds its entity.
pub proof fn lemma_access_after_add(
    s: Seq<((u64, Seq<char>), u64, bool)>,
    key: (u64, Seq<char>),
    entity: u64,
)
    requires
        knob_index(s, key) < 0,
    ensures
        knob_index(s.push((key, entity, true)), key) == s.len(),
        s.push((key, entity, true))[s.len() as int].1 == entity,
{
    assert(s.push((key, entity, true)).drop_last() =~= s);
}

/// A knob as an edit system sees it: its entity, and whether it was created this frame.
pub struct YoleckKnobHandle {
    pub entity: u64,
    pub is_new: bool,
}

impl YoleckKnobHandle {
    /// The data of kind `kind` sent to the knob this frame (usually the editor telling it was
    /// clicked or dragged).
    pub fn get_passed_data<'a, P>(&self, passed: &'a YoleckPassedData<P>, kind: u64) -> (r: Option<
        &'a P,
    >)
        ensures
            match r {
                Some(d) => passed@.contains_key((self.entity, kind)) && *d == passed@[(
                    self.entity,
                    kind,
                )],
                None => !passed@.contains_key((self.entity, kind)),
            },
    {
        passed.get(self.entity, kind)
    }
}

} // verus!
