use vstd::prelude::*;

use crate::entity_management::{entries_match, YoleckRawEntry, YoleckRawLevel};
use crate::YoleckBelongsToLevel;
use crate::json::{str_equal, JsonModel, JsonValue};

verus! {

/// An upgrade of the data of entities, written by the app for one version of its format: it is
/// given each entity's type and data. What it makes of them is `spec_upgrade`: the data after
/// the upgrade depends on the upgrade, the type and the data before it alone.
pub trait YoleckEntityUpgrade {
    spec fn spec_upgrade(&self, entity_type: Seq<char>, data: JsonModel) -> JsonModel;

    fn upgrade(&self, entity_type: &str, data: &mut JsonValue)
        ensures
            final(data)@ == self.spec_upgrade(entity_type@, old(data)@),
    ;
}

/// An upgrade of the data of the entities of one type only. What it makes of the data is
/// `spec_upgrade_data`.
pub trait YoleckEntityDataUpgrade {
    spec fn spec_upgrade_data(&self, data: JsonModel) -> JsonModel;

    fn upgrade_data(&self, data: &mut JsonValue)
        ensures
            final(data)@ == self.spec_upgrade_data(old(data)@),
    ;
}

/// An upgrade that applies `upgrade` to the entities of type `for_type` and leaves the others
/// alone.
pub struct YoleckEntityUpgradeFor<F> {
    pub for_type: String,
    pub upgrade: F,
}

impl<F: YoleckEntityDataUpgrade> YoleckEntityUpgrade for YoleckEntityUpgradeFor<F> {
    /// Entities of `for_type` get what the inner upgrade makes of their data; the others keep
    /// theirs.
    open spec fn spec_upgrade(&self, entity_type: Seq<char>, data: JsonModel) -> JsonModel {
        if entity_type == self.for_type@ {
            self.upgrade.spec_upgrade_data(data)
        } else {
            data
        }
    }

    fn upgrade(&self, entity_type: &str, data: &mut JsonValue) {
        if str_equal(entity_type, self.for_type.as_str()) {
            self.upgrade.upgrade_data(data);
        }
    }
}

/// The upgrade registered for entities of `for_type`.
pub fn upgrade_for<F: YoleckEntityDataUpgrade>(for_type: &str, upgrade: F) -> (r:
    YoleckEntityUpgradeFor<F>)
    ensures
        r.for_type@ == for_type@,
        r.upgrade == upgrade,
{
    YoleckEntityUpgradeFor { for_type: String::from_str(for_type), upgrade }
}

/// Turns on the upgrading of entities when the layout of the app's entities and components
/// changes.
pub struct YoleckEntityUpgradingPlugin {
    /// The current version of the app data; without the plugin it is 0 ("unversioned").
    pub app_format_version: usize,
}

impl YoleckEntityUpgradingPlugin {
    /// The upgrades registry the plugin sets up: no upgrades yet.
    pub fn build<U: YoleckEntityUpgrade>(&self) -> (r: YoleckEntityUpgrading<U>)
        ensures
            r.wf(),
            r.spec_app_format_version() == self.app_format_version,
            r.spec_upgrades() == Seq::<(usize, Seq<U>)>::empty(),
    {
        YoleckEntityUpgrading::new(self.app_format_version)
    }
}

/// The upgrades of entities, by the app format version they upgrade to, with the app's current
/// format version.
pub struct YoleckEntityUpgrading<U> {
    /// The current version of the app data; 0 ("unversioned") when the app does not version it.
    app_format_version: usize,
    upgrade_functions: Vec<(usize, Vec<U>)>,
}

/// The model of the registered upgrades: the versions in increasing order, each with its
/// upgrades in the order they were added.
pub open spec fn upgrades_model<U>(s: Seq<(usize, Vec<U>)>) -> Seq<(usize, Seq<U>)> {
    s.map_values(|e: (usize, Vec<U>)| (e.0, e.1@))
}

pub open spec fn versions_increasing<U>(s: Seq<(usize, Seq<U>)>) -> bool {
    forall|i: int, j: int| 0 <= i < j < s.len() ==> #[trigger] s[i].0 < #[trigger] s[j].0
}

/// The number of registered versions below `v`: where `v` goes.
pub open spec fn versions_below<U>(s: Seq<(usize, Seq<U>)>, v: usize) -> int {
    s.filter(|e: (usize, Seq<U>)| e.0 < v).len() as int
}

/// The registered upgrades after `u` is added for version `v`.
pub open spec fn spec_add_upgrade<U>(s: Seq<(usize, Seq<U>)>, v: usize, u: U) -> Seq<
    (usize, Seq<U>),
> {
    let p = versions_below(s, v);
    if p < s.len() && s[p].0 == v {
        s.update(p, (v, s[p].1.push(u)))
    } else {
        s.insert(p, (v, seq![u]))
    }
}

/// The versions that a level written with app format version `from` is upgraded through, in
/// order.
pub open spec fn spec_upgrade_plan<U>(s: Seq<(usize, Seq<U>)>, from: usize) -> Seq<usize> {
    s.filter(|e: (usize, Seq<U>)| e.0 > from).map_values(|e: (usize, Seq<U>)| e.0)
}

/// The data of an entity of type `entity_type` after each of `upgrades` in turn.
pub open spec fn apply_upgrades<U: YoleckEntityUpgrade>(
    upgrades: Seq<U>,
    entity_type: Seq<char>,
    data: JsonModel,
) -> JsonModel
    decreases upgrades.len(),
{
    if upgrades.len() == 0 {
        data
    } else {
        upgrades.last().spec_upgrade(
            entity_type,
            apply_upgrades(upgrades.drop_last(), entity_type, data),
        )
    }
}

/// Upgrades apply one after the other, in order: a single upgrade applies itself, and applying
/// `a` then `b` is applying `a + b`.
pub proof fn lemma_upgrades_in_order<U: YoleckEntityUpgrade>(
    a: Seq<U>,
    b: Seq<U>,
    entity_type: Seq<char>,
    data: JsonModel,
)
    ensures
        apply_upgrades(a + b, entity_type, data) == apply_upgrades(
            b,
            entity_type,
            apply_upgrades(a, entity_type, data),
        ),
        forall|u: U|
            #[trigger] apply_upgrades(seq![u], entity_type, data) == u.spec_upgrade(entity_type, data),
    decreases b.len(),
{
    assert forall|u: U| #[trigger] apply_upgrades(seq![u], entity_type, data) == u.spec_upgrade(entity_type, data) by {
        let one = seq![u];
        assert(one.drop_last() =~= Seq::<U>::empty());
        assert(one.last() == u);
        assert(apply_upgrades(one.drop_last(), entity_type, data) == data);
    }
    if b.len() == 0 {
        assert(a + b =~= a);
    } else {
        assert((a + b).drop_last() =~= a + b.drop_last());
        assert((a + b).last() == b.last());
        lemma_upgrades_in_order(a, b.drop_last(), entity_type, data);
    }
}

/// The data of an entity of type `entity_type` in a level written with app format version
/// `from`, after the upgrades of every registered version newer than `from`: by version in
/// increasing order, and within a version in the order they were added.
pub open spec fn apply_upgrade_plan<U: YoleckEntityUpgrade>(
    s: Seq<(usize, Seq<U>)>,
    from: usize,
    entity_type: Seq<char>,
    data: JsonModel,
) -> JsonModel
    decreases s.len(),
{
    if s.len() == 0 {
        data
    } else {
        let prev = apply_upgrade_plan(s.drop_last(), from, entity_type, data);
        if s.last().0 > from {
            apply_upgrades(s.last().1, entity_type, prev)
        } else {
            prev
        }
    }
}

proof fn lemma_versions_below<U>(s: Seq<(usize, Seq<U>)>, v: usize, k: int)
    requires
        versions_increasing(s),
        0 <= k <= s.len(),
        forall|i: int| 0 <= i < k ==> #[trigger] s[i].0 < v,
        k < s.len() ==> s[k].0 >= v,
    ensures
        versions_below(s, v) == k,
    decreases s.len(),
{
    let p = |e: (usize, Seq<U>)| e.0 < v;
    reveal(Seq::filter);
    if s.len() > 0 {
        let t = s.drop_last();
        assert forall|i: int, j: int| 0 <= i < j < t.len() implies #[trigger] t[i].0 < #[trigger] t[j].0 by {
            assert(s[i].0 < s[j].0);
        }
        if k == s.len() {
            lemma_versions_below(t, v, k - 1);
            assert(p(s.last()));
        } else {
            assert(s.last().0 >= v) by {
                if k < s.len() - 1 {
                    assert(s[k].0 < s[s.len() - 1].0);
                }
            }
            lemma_versions_below(t, v, k);
        }
    }
}

/// The upgrades registered for version `v`, in the order they were added (none when `v` has no
/// upgrades).
pub open spec fn upgrades_for_version<U>(s: Seq<(usize, Seq<U>)>, v: usize) -> Seq<U>
    decreases s.len(),
{
    if s.len() == 0 {
        Seq::empty()
    } else if s.last().0 == v {
        s.last().1
    } else {
        upgrades_for_version(s.drop_last(), v)
    }
}

/// The number of registered upgrades, over all versions.
pub open spec fn total_upgrades<U>(s: Seq<(usize, Seq<U>)>) -> nat
    decreases s.len(),
{
    if s.len() == 0 {
        0
    } else {
        total_upgrades(s.drop_last()) + s.last().1.len()
    }
}

proof fn lemma_versions_below_bounds<U>(s: Seq<(usize, Seq<U>)>, v: usize)
    requires
        versions_increasing(s),
    ensures
        0 <= versions_below(s, v) <= s.len(),
        forall|i: int| 0 <= i < versions_below(s, v) ==> #[trigger] s[i].0 < v,
        versions_below(s, v) < s.len() ==> s[versions_below(s, v)].0 >= v,
    decreases s.len(),
{
    let p = |e: (usize, Seq<U>)| e.0 < v;
    reveal(Seq::filter);
    if s.len() > 0 {
        let t = s.drop_last();
        assert forall|i: int, j: int| 0 <= i < j < t.len() implies #[trigger] t[i].0 < #[trigger] t[j].0 by {
            assert(s[i].0 < s[j].0);
        }
        lemma_versions_below_bounds(t, v);
        assert forall|i: int| 0 <= i < t.len() implies #[trigger] t[i] == s[i] by {}
        assert(s =~= t.push(s.last()));
        t.lemma_filter_push(s.last(), p);
        if s.last().0 < v {
            assert(p(s.last()));
            assert(versions_below(t, v) == t.len()) by {
                if versions_below(t, v) < t.len() {
                    let k = versions_below(t, v);
                    assert(s[k].0 < s[s.len() - 1].0);
                }
            }
            assert forall|i: int| 0 <= i < s.len() implies #[trigger] s[i].0 < v by {
                if i < s.len() - 1 {
                    assert(s[i].0 < s[s.len() - 1].0);
                }
            }
        } else {
            assert(!p(s.last()));
            assert(versions_below(s, v) == versions_below(t, v));
        }
    }
}

proof fn lemma_upgrades_for_version_at<U>(s: Seq<(usize, Seq<U>)>, v: usize, i: int)
    requires
        0 <= i < s.len(),
        s[i].0 == v,
        forall|j: int| i < j < s.len() ==> #[trigger] s[j].0 != v,
    ensures
        upgrades_for_version(s, v) == s[i].1,
    decreases s.len(),
{
    if i < s.len() - 1 {
        assert(s[s.len() - 1].0 != v);
        let t = s.drop_last();
        assert forall|j: int| i < j < t.len() implies #[trigger] t[j].0 != v by {
            assert(t[j] == s[j]);
        }
        lemma_upgrades_for_version_at(t, v, i);
    }
}

proof fn lemma_upgrades_for_version_none<U>(s: Seq<(usize, Seq<U>)>, v: usize)
    requires
        forall|j: int| 0 <= j < s.len() ==> #[trigger] s[j].0 != v,
    ensures
        upgrades_for_version(s, v) == Seq::<U>::empty(),
    decreases s.len(),
{
    if s.len() > 0 {
        assert(s[s.len() - 1].0 != v);
        let t = s.drop_last();
        assert forall|j: int| 0 <= j < t.len() implies #[trigger] t[j].0 != v by {
            assert(t[j] == s[j]);
        }
        lemma_upgrades_for_version_none(t, v);
    }
}

proof fn lemma_total_update<U>(s: Seq<(usize, Seq<U>)>, p: int, e: (usize, Seq<U>))
    requires
        0 <= p < s.len(),
    ensures
        total_upgrades(s.update(p, e)) + s[p].1.len() == total_upgrades(s) + e.1.len(),
    decreases s.len(),
{
    let s2 = s.update(p, e);
    if p == s.len() - 1 {
        assert(s2.drop_last() =~= s.drop_last());
    } else {
        assert(s2.drop_last() =~= s.drop_last().update(p, e));
        lemma_total_update(s.drop_last(), p, e);
    }
}

proof fn lemma_total_insert<U>(s: Seq<(usize, Seq<U>)>, p: int, e: (usize, Seq<U>))
    requires
        0 <= p <= s.len(),
    ensures
        total_upgrades(s.insert(p, e)) == total_upgrades(s) + e.1.len(),
    decreases s.len(),
{
    let s2 = s.insert(p, e);
    if p == s.len() {
        assert(s2.drop_last() =~= s);
    } else {
        assert(s2.drop_last() =~= s.drop_last().insert(p, e));
        assert(s2.last() == s.last());
        lemma_total_insert(s.drop_last(), p, e);
    }
}

/// Registering an upgrade for version `v` keeps every upgrade registered before: the upgrades of
/// `v` are the earlier ones followed by the new one, every other version keeps its upgrades, and
/// the number of registered upgrades grows by exactly one.
pub proof fn lemma_add_upgrade_keeps_earlier<U>(s: Seq<(usize, Seq<U>)>, v: usize, u: U)
    requires
        versions_increasing(s),
    ensures
        upgrades_for_version(spec_add_upgrade(s, v, u), v) == upgrades_for_version(s, v).push(u),
        forall|w: usize|
            w != v ==> #[trigger] upgrades_for_version(spec_add_upgrade(s, v, u), w)
                == upgrades_for_version(s, w),
        total_upgrades(spec_add_upgrade(s, v, u)) == total_upgrades(s) + 1,
{
    lemma_versions_below_bounds(s, v);
    let p = versions_below(s, v);
    let s2 = spec_add_upgrade(s, v, u);
    if p < s.len() && s[p].0 == v {
        lemma_total_update(s, p, (v, s[p].1.push(u)));
        assert forall|j: int| p < j < s.len() implies #[trigger] s[j].0 != v by {
            assert(s[p].0 < s[j].0);
        }
        lemma_upgrades_for_version_at(s, v, p);
        assert forall|j: int| p < j < s2.len() implies #[trigger] s2[j].0 != v by {
            assert(s2[j] == s[j]);
        }
        lemma_upgrades_for_version_at(s2, v, p);
        assert forall|w: usize| w != v implies #[trigger] upgrades_for_version(s2, w)
            == upgrades_for_version(s, w) by {
            if exists|i: int| 0 <= i < s.len() && s[i].0 == w {
                let i = choose|i: int| 0 <= i < s.len() && s[i].0 == w;
                assert forall|j: int| i < j < s.len() implies #[trigger] s[j].0 != w by {
                    assert(s[i].0 < s[j].0);
                }
                lemma_upgrades_for_version_at(s, w, i);
                assert(i != p);
                assert forall|j: int| i < j < s2.len() implies #[trigger] s2[j].0 != w by {
                    assert(s2[j].0 == s[j].0);
                }
                lemma_upgrades_for_version_at(s2, w, i);
            } else {
                lemma_upgrades_for_version_none(s, w);
                assert forall|j: int| 0 <= j < s2.len() implies #[trigger] s2[j].0 != w by {
                    assert(s2[j].0 == s[j].0);
                }
                lemma_upgrades_for_version_none(s2, w);
            }
        }
    } else {
        lemma_total_insert(s, p, (v, seq![u]));
        assert forall|j: int| 0 <= j < s.len() implies #[trigger] s[j].0 != v by {
            if j >= p {
                if j > p {
                    assert(s[p].0 < s[j].0);
                }
            }
        }
        lemma_upgrades_for_version_none(s, v);
        assert forall|j: int| p < j < s2.len() implies #[trigger] s2[j].0 != v by {
            assert(s2[j] == s[j - 1]);
            if j - 1 > p {
                assert(s[p].0 < s[j - 1].0);
            }
        }
        assert(s2[p] == (v, seq![u]));
        lemma_upgrades_for_version_at(s2, v, p);
        assert(Seq::<U>::empty().push(u) =~= seq![u]);
        assert forall|w: usize| w != v implies #[trigger] upgrades_for_version(s2, w)
            == upgrades_for_version(s, w) by {
            if exists|i: int| 0 <= i < s.len() && s[i].0 == w {
                let i = choose|i: int| 0 <= i < s.len() && s[i].0 == w;
                assert forall|j: int| i < j < s.len() implies #[trigger] s[j].0 != w by {
                    assert(s[i].0 < s[j].0);
                }
                lemma_upgrades_for_version_at(s, w, i);
                let i2 = if i < p {
                    i
                } else {
                    i + 1
                };
                assert(s2[i2] == s[i]);
                assert forall|j: int| i2 < j < s2.len() implies #[trigger] s2[j].0 != w by {
                    if j < p {
                        assert(s2[j] == s[j]);
                        assert(s[i].0 < s[j].0);
                    } else if j > p {
                        assert(s2[j] == s[j - 1]);
                        assert(s[i].0 < s[j - 1].0);
                    }
                }
                lemma_upgrades_for_version_at(s2, w, i2);
            } else {
                lemma_upgrades_for_version_none(s, w);
                assert forall|j: int| 0 <= j < s2.len() implies #[trigger] s2[j].0 != w by {
                    if j < p {
                        assert(s2[j] == s[j]);
                    } else if j > p {
                        assert(s2[j] == s[j - 1]);
                    }
                }
                lemma_upgrades_for_version_none(s2, w);
            }
        }
    }
}

impl<U: YoleckEntityUpgrade> YoleckEntityUpgrading<U> {
    pub closed spec fn spec_upgrades(&self) -> Seq<(usize, Seq<U>)> {
        upgrades_model(self.upgrade_functions@)
    }

    /// The registered versions are in increasing order.
    pub open spec fn wf(&self) -> bool {
        versions_increasing(self.spec_upgrades())
    }

    pub closed spec fn spec_app_format_version(&self) -> usize {
        self.app_format_version
    }

    /// The current version of the app data.
    pub fn app_format_version(&self) -> (r: usize)
        ensures
            r == self.spec_app_format_version(),
    {
        self.app_format_version
    }

    /// No upgrades yet, for an app whose data is at `app_format_version`.
    pub fn new(app_format_version: usize) -> (r: Self)
        ensures
            r.wf(),
            r.spec_app_format_version() == app_format_version,
            r.spec_upgrades() == Seq::<(usize, Seq<U>)>::empty(),
    {
        let r = YoleckEntityUpgrading { app_format_version, upgrade_functions: Vec::new() };
        assert(r.spec_upgrades() =~= Seq::<(usize, Seq<U>)>::empty());
        r
    }

    /// Register an upgrade of entities from the previous version to `to_version`, which cannot be
    /// newer than the app's format.
    pub fn add_yoleck_entity_upgrade(&mut self, to_version: usize, upgrade: U)
        requires
            old(self).wf(),
            to_version <= old(self).spec_app_format_version(),
        ensures
            final(self).wf(),
            final(self).spec_app_format_version() == old(self).spec_app_format_version(),
            final(self).spec_upgrades() == spec_add_upgrade(
                old(self).spec_upgrades(),
                to_version,
                upgrade,
            ),
            upgrades_for_version(final(self).spec_upgrades(), to_version) == upgrades_for_version(
                old(self).spec_upgrades(),
                to_version,
            ).push(upgrade),
            forall|w: usize|
                w != to_version ==> #[trigger] upgrades_for_version(final(self).spec_upgrades(), w)
                    == upgrades_for_version(old(self).spec_upgrades(), w),
            total_upgrades(final(self).spec_upgrades()) == total_upgrades(old(self).spec_upgrades())
                + 1,
    {
        let ghost s0 = self.spec_upgrades();
        proof {
            lemma_add_upgrade_keeps_earlier(s0, to_version, upgrade);
        }
        let n = self.upgrade_functions.len();
        let mut p: usize = 0;
        while p < n && self.upgrade_functions[p].0 < to_version
            invariant
                n == self.upgrade_functions.len(),
                s0 == self.spec_upgrades(),
                versions_increasing(s0),
                p <= n,
                forall|i: int| 0 <= i < p ==> #[trigger] s0[i].0 < to_version,
            decreases n - p,
        {
            assert(s0[p as int].0 == self.upgrade_functions@[p as int].0);
            p = p + 1;
        }
        proof {
            if p < n {
                assert(s0[p as int].0 == self.upgrade_functions@[p as int].0);
            }
            lemma_versions_below(s0, to_version, p as int);
        }
        if p < n && self.upgrade_functions[p].0 == to_version {
            let (v, mut list) = self.upgrade_functions.remove(p);
            list.push(upgrade);
            self.upgrade_functions.insert(p, (v, list));
            proof {
                assert(self.spec_upgrades() =~= s0.update(p as int, (to_version, s0[p as int].1.push(upgrade))));
            }
        } else {
            let mut list: Vec<U> = Vec::new();
            list.push(upgrade);
            self.upgrade_functions.insert(p, (to_version, list));
            proof {
                assert(list@ =~= seq![upgrade]);
                assert(self.spec_upgrades() =~= s0.insert(p as int, (to_version, seq![upgrade])));
            }
        }
        proof {
            let s1 = self.spec_upgrades();
            assert forall|i: int, j: int| 0 <= i < j < s1.len() implies #[trigger] s1[i].0
                < #[trigger] s1[j].0 by {
                if s1.len() == s0.len() {
                    assert(s0[i].0 < s0[j].0);
                } else if j < p {
                    assert(s0[i].0 < s0[j].0);
                } else if j == p {
                } else if i < p {
                    assert(s1[j] == s0[j - 1]);
                } else if i == p {
                    assert(s1[j] == s0[j - 1]);
                    if j - 1 > p {
                        assert(s0[p as int].0 < s0[j - 1].0);
                    }
                } else {
                    assert(s0[i - 1].0 < s0[j - 1].0);
                }
            }
        }
    }

    /// The versions that a level written with app format version `from` is upgraded through, in
    /// order: the registered ones newer than `from`.
    pub fn upgrade_plan(&self, from: usize) -> (r: Vec<usize>)
        ensures
            r@ == spec_upgrade_plan(self.spec_upgrades(), from),
    {
        let ghost s0 = self.spec_upgrades();
        let ghost newer = |e: (usize, Seq<U>)| e.0 > from;
        let ghost version = |e: (usize, Seq<U>)| e.0;
        let mut r: Vec<usize> = Vec::new();
        let mut i: usize = 0;
        assert(s0.take(0).filter(newer) =~= Seq::<(usize, Seq<U>)>::empty());
        assert(r@ =~= s0.take(0).filter(newer).map_values(version));
        while i < self.upgrade_functions.len()
            invariant
                i <= self.upgrade_functions.len(),
                s0 == self.spec_upgrades(),
                newer == (|e: (usize, Seq<U>)| e.0 > from),
                version == (|e: (usize, Seq<U>)| e.0),
                r@ == s0.take(i as int).filter(newer).map_values(version),
            decreases self.upgrade_functions.len() - i,
        {
            let v = self.upgrade_functions[i].0;
            let ghost e = s0[i as int];
            assert(e.0 == v);
            assert(s0.take(i + 1) =~= s0.take(i as int).push(e));
            proof {
                s0.take(i as int).lemma_filter_push(e, newer);
            }
            if v > from {
                r.push(v);
                assert(r@ =~= s0.take(i + 1).filter(newer).map_values(version));
            } else {
                assert(r@ =~= s0.take(i + 1).filter(newer).map_values(version));
            }
            i = i + 1;
        }
        assert(s0.take(i as int) =~= s0);
        r
    }

    /// Upgrade the entities of a level written with an older app format: for each registered
    /// version newer than the level's, in order, every upgrade of that version is applied to
    /// every entity, and the level is marked with that version. The entities keep their
    /// headers; only their data changes. Afterwards no registered upgrade is newer than the
    /// level's version, so upgrading it again changes nothing.
    pub fn upgrade_raw_level_file(&self, level: &mut YoleckRawLevel)
        requires
            self.wf(),
        ensures
            ({
                let plan = spec_upgrade_plan(
                    self.spec_upgrades(),
                    old(level).spec_header().app_format_version,
                );
                &&& final(level).spec_header().format_version == old(
                    level,
                ).spec_header().format_version
                &&& final(level).spec_header().app_format_version == if plan.len() == 0 {
                    old(level).spec_header().app_format_version
                } else {
                    plan.last()
                }
                &&& final(level).spec_level_data() == old(level).spec_level_data()
                &&& final(level).spec_entries().len() == old(level).spec_entries().len()
                &&& forall|i: int|
                    0 <= i < old(level).spec_entries().len() ==> {
                        &&& (#[trigger] final(level).spec_entries()[i]).data@ == apply_upgrade_plan(
                            self.spec_upgrades(),
                            old(level).spec_header().app_format_version,
                            old(level).spec_entries()[i].header.entity_type@,
                            old(level).spec_entries()[i].data@,
                        )
                        &&& final(level).spec_entries()[i].header.entity_type@ == old(
                            level,
                        ).spec_entries()[i].header.entity_type@
                        &&& final(level).spec_entries()[i].header.name@ == old(
                            level,
                        ).spec_entries()[i].header.name@
                        &&& final(level).spec_entries()[i].header.uuid == old(
                            level,
                        ).spec_entries()[i].header.uuid
                    }
                &&& spec_upgrade_plan(
                    self.spec_upgrades(),
                    final(level).spec_header().app_format_version,
                ).len() == 0
                &&& forall|entity_type: Seq<char>, data: JsonModel|
                    #[trigger] apply_upgrade_plan(
                        self.spec_upgrades(),
                        final(level).spec_header().app_format_version,
                        entity_type,
                        data,
                    ) == data
            }),
    {
        let ghost e0 = level.spec_entries();
        let from_version = level.header().app_format_version;
        let ghost from = level.spec_header().app_format_version;
        let ghost s0 = self.spec_upgrades();
        let ghost newer = |e: (usize, Seq<U>)| e.0 > from;
        let mut k: usize = 0;
        assert(spec_upgrade_plan(s0.take(0), from) =~= Seq::<usize>::empty());
        assert(s0.take(0) =~= Seq::<(usize, Seq<U>)>::empty());
        while k < self.upgrade_functions.len()
            invariant
                k <= self.upgrade_functions.len(),
                s0 == self.spec_upgrades(),
                newer == (|e: (usize, Seq<U>)| e.0 > from),
                level.spec_header().format_version == old(level).spec_header().format_version,
                level.spec_level_data() == old(level).spec_level_data(),
                level.spec_header().app_format_version == ({
                    let done = spec_upgrade_plan(s0.take(k as int), from);
                    if done.len() == 0 {
                        from
                    } else {
                        done.last()
                    }
                }),
                level.spec_entries().len() == e0.len(),
                e0 == old(level).spec_entries(),
                from == old(level).spec_header().app_format_version,
                from_version == from,
                forall|i: int|
                    0 <= i < e0.len() ==> (#[trigger] level.spec_entries()[i]).header == e0[i].header,
                forall|i: int|
                    0 <= i < e0.len() ==> (#[trigger] level.spec_entries()[i]).data@
                        == apply_upgrade_plan(
                        s0.take(k as int),
                        from,
                        e0[i].header.entity_type@,
                        e0[i].data@,
                    ),
            decreases self.upgrade_functions.len() - k,
        {
            let ghost prev = |j: int|
                apply_upgrade_plan(s0.take(k as int), from, e0[j].header.entity_type@, e0[j].data@);
            proof {
                assert(s0.take(k + 1) =~= s0.take(k as int).push(s0[k as int]));
                assert(s0.take(k + 1).drop_last() =~= s0.take(k as int));
                s0.take(k as int).lemma_filter_push(s0[k as int], newer);
            }
            let target_version = self.upgrade_functions[k].0;
            assert(s0[k as int].0 == target_version);
            if target_version > from_version {
                let functions = &self.upgrade_functions[k].1;
                assert(functions@ == s0[k as int].1);
                let n = level.entries().len();
                let mut i: usize = 0;
                let ghost before = level.spec_header();
                while i < n
                    invariant
                        i <= n,
                        n == e0.len(),
                        functions@ == s0[k as int].1,
                        level.spec_entries().len() == e0.len(),
                        level.spec_header() == before,
                        level.spec_level_data() == old(level).spec_level_data(),
                        forall|j: int|
                            0 <= j < e0.len() ==> (#[trigger] level.spec_entries()[j]).header
                                == e0[j].header,
                        forall|j: int|
                            0 <= j < i ==> (#[trigger] level.spec_entries()[j]).data@
                                == apply_upgrades(functions@, e0[j].header.entity_type@, prev(j)),
                        forall|j: int|
                            i <= j < e0.len() ==> (#[trigger] level.spec_entries()[j]).data@
                                == prev(j),
                    decreases n - i,
                {
                    let entry = &level.entries()[i];
                    let entity_type = entry.header.entity_type.clone();
                    let mut data = entry.data.deep_clone();
                    let ghost t = e0[i as int].header.entity_type@;
                    assert(entity_type@ == t);
                    let mut f: usize = 0;
                    assert(functions@.take(0) =~= Seq::<U>::empty());
                    while f < functions.len()
                        invariant
                            f <= functions@.len(),
                            entity_type@ == t,
                            data@ == apply_upgrades(functions@.take(f as int), t, prev(i as int)),
                        decreases functions.len() - f,
                    {
                        proof {
                            assert(functions@.take(f + 1).drop_last() =~= functions@.take(f as int));
                            assert(functions@.take(f + 1).last() == functions@[f as int]);
                        }
                        functions[f].upgrade(entity_type.as_str(), &mut data);
                        f = f + 1;
                    }
                    assert(functions@.take(f as int) =~= functions@);
                    let ghost lv = level.spec_entries();
                    level.set_entry_data(i, data);
                    proof {
                        assert forall|j: int| 0 <= j < e0.len() implies (#[trigger] level.spec_entries()[j]).header
                            == e0[j].header by {
                            if j != i {
                                assert(level.spec_entries()[j] == lv[j]);
                            }
                        }
                        assert forall|j: int| 0 <= j < i + 1 implies (#[trigger] level.spec_entries()[j]).data@
                            == apply_upgrades(functions@, e0[j].header.entity_type@, prev(j)) by {
                            if j != i {
                                assert(level.spec_entries()[j] == lv[j]);
                            }
                        }
                        assert forall|j: int| i + 1 <= j < e0.len() implies (#[trigger] level.spec_entries()[j]).data@
                            == prev(j) by {
                            assert(level.spec_entries()[j] == lv[j]);
                        }
                    }
                    i = i + 1;
                }
                level.set_app_format_version(target_version);
                proof {
                    assert(spec_upgrade_plan(s0.take(k + 1), from) =~= spec_upgrade_plan(
                        s0.take(k as int),
                        from,
                    ).push(target_version));
                }
            } else {
                proof {
                    assert(spec_upgrade_plan(s0.take(k + 1), from) =~= spec_upgrade_plan(
                        s0.take(k as int),
                        from,
                    ));
                }
            }
            k = k + 1;
        }
        proof {
            assert(s0.take(k as int) =~= s0);
            assert forall|entity_type: Seq<char>, data: JsonModel|
                #[trigger] apply_upgrade_plan(
                    s0,
                    level.spec_header().app_format_version,
                    entity_type,
                    data,
                ) == data by {
                lemma_second_upgrade_changes_nothing(s0, from, entity_type, data);
            }
            lemma_upgrade_once(s0, from);
        }
    }
}

/// A level is upgraded once: after its upgrade it is marked with a version that no registered
/// upgrade is newer than, so upgrading it again changes nothing.
pub proof fn lemma_upgrade_once<U>(s: Seq<(usize, Seq<U>)>, from: usize)
    requires
        versions_increasing(s),
    ensures
        ({
            let plan = spec_upgrade_plan(s, from);
            let marked = if plan.len() == 0 {
                from
            } else {
                plan.last()
            };
            spec_upgrade_plan(s, marked).len() == 0
        }),
{
    broadcast use vstd::seq_lib::group_filter_ensures;

    let plan = spec_upgrade_plan(s, from);
    let newer = |e: (usize, Seq<U>)| e.0 > from;
    if s.len() == 0 {
        s.lemma_all_neg_filter_empty(newer);
    } else {
        let last = s.last();
        assert forall|i: int| 0 <= i < s.len() implies (#[trigger] s[i]).0 <= last.0 by {
            if i < s.len() - 1 {
                assert(s[i].0 < s[s.len() - 1].0);
            }
        }
        assert(s =~= s.drop_last().push(last));
        s.drop_last().lemma_filter_push(last, newer);
        let marked = if plan.len() == 0 {
            from
        } else {
            plan.last()
        };
        if last.0 > from {
            assert(plan.last() == last.0);
        } else {
            assert forall|i: int| 0 <= i < s.len() implies !newer(#[trigger] s[i]) by {}
            s.lemma_all_neg_filter_empty(newer);
        }
        let after = |e: (usize, Seq<U>)| e.0 > marked;
        assert forall|i: int| 0 <= i < s.len() implies !after(#[trigger] s[i]) by {}
        s.lemma_all_neg_filter_empty(after);
    }
}

/// With no registered version newer than `from`, the upgrade plan leaves every entity's data as
/// it is.
proof fn lemma_nothing_newer<U: YoleckEntityUpgrade>(
    s: Seq<(usize, Seq<U>)>,
    from: usize,
    entity_type: Seq<char>,
    data: JsonModel,
)
    requires
        forall|i: int| 0 <= i < s.len() ==> (#[trigger] s[i]).0 <= from,
    ensures
        apply_upgrade_plan(s, from, entity_type, data) == data,
    decreases s.len(),
{
    if s.len() > 0 {
        assert(s.last() == s[s.len() - 1]);
        let t = s.drop_last();
        assert forall|i: int| 0 <= i < t.len() implies (#[trigger] t[i]).0 <= from by {
            assert(t[i] == s[i]);
        }
        lemma_nothing_newer(t, from, entity_type, data);
    }
}

/// Upgrading a level a second time changes nothing: once a level is marked with the version its
/// upgrade reached, the plan from that version leaves the data of every entity as it is.
pub proof fn lemma_second_upgrade_changes_nothing<U: YoleckEntityUpgrade>(
    s: Seq<(usize, Seq<U>)>,
    from: usize,
    entity_type: Seq<char>,
    data: JsonModel,
)
    requires
        versions_increasing(s),
    ensures
        ({
            let plan = spec_upgrade_plan(s, from);
            let marked = if plan.len() == 0 {
                from
            } else {
                plan.last()
            };
            &&& spec_upgrade_plan(s, marked).len() == 0
            &&& apply_upgrade_plan(s, marked, entity_type, data) == data
        }),
{
    broadcast use vstd::seq_lib::group_filter_ensures;

    lemma_upgrade_once(s, from);
    let plan = spec_upgrade_plan(s, from);
    let marked = if plan.len() == 0 {
        from
    } else {
        plan.last()
    };
    let after = |e: (usize, Seq<U>)| e.0 > marked;
    assert forall|i: int| 0 <= i < s.len() implies (#[trigger] s[i]).0 <= marked by {
        if s[i].0 > marked {
            assert(after(s[i]));
            assert(s.filter(after).contains(s[i]));
            assert(s.filter(after).len() > 0);
            assert(spec_upgrade_plan(s, marked).len() == s.filter(after).len());
        }
    }
    lemma_nothing_newer(s, marked, entity_type, data);
}

/// Loading a level (the level entity `level_entity` asked for it): the level is first upgraded
/// when the app versions its format, then a copy of each of its entries is spawned as part of
/// the level.
pub fn process_loading_command<U: YoleckEntityUpgrade>(
    raw_level: &mut YoleckRawLevel,
    entity_upgrading: Option<&YoleckEntityUpgrading<U>>,
    level_entity: u64,
) -> (r: Vec<(YoleckRawEntry, YoleckBelongsToLevel)>)
    requires
        entity_upgrading matches Some(u) ==> u.wf(),
    ensures
        entity_upgrading is None ==> *final(raw_level) == *old(raw_level),
        entity_upgrading matches Some(u) ==> ({
            let plan = spec_upgrade_plan(
                u.spec_upgrades(),
                old(raw_level).spec_header().app_format_version,
            );
            &&& final(raw_level).spec_header().app_format_version == if plan.len() == 0 {
                old(raw_level).spec_header().app_format_version
            } else {
                plan.last()
            }
            &&& forall|i: int|
                0 <= i < old(raw_level).spec_entries().len() ==> {
                    &&& (#[trigger] final(raw_level).spec_entries()[i]).data@ == apply_upgrade_plan(
                        u.spec_upgrades(),
                        old(raw_level).spec_header().app_format_version,
                        old(raw_level).spec_entries()[i].header.entity_type@,
                        old(raw_level).spec_entries()[i].data@,
                    )
                    &&& final(raw_level).spec_entries()[i].header.entity_type@ == old(
                        raw_level,
                    ).spec_entries()[i].header.entity_type@
                    &&& final(raw_level).spec_entries()[i].header.name@ == old(
                        raw_level,
                    ).spec_entries()[i].header.name@
                    &&& final(raw_level).spec_entries()[i].header.uuid == old(
                        raw_level,
                    ).spec_entries()[i].header.uuid
                }
        }),
        final(raw_level).spec_entries().len() == old(raw_level).spec_entries().len(),
        r@.len() == final(raw_level).spec_entries().len(),
        forall|i: int|
            0 <= i < r@.len() ==> entries_match((#[trigger] r@[i]).0, final(raw_level).spec_entries()[i])
                && r@[i].1 == (YoleckBelongsToLevel { level: level_entity }),
{
    if let Some(upgrading) = entity_upgrading {
        upgrading.upgrade_raw_level_file(raw_level);
    }
    let n = raw_level.entries().len();
    let mut r: Vec<(YoleckRawEntry, YoleckBelongsToLevel)> = Vec::new();
    let mut i: usize = 0;
    while i < n
        invariant
            n == raw_level.spec_entries().len(),
            i <= n,
            r@.len() == i,
            forall|j: int|
                0 <= j < i ==> entries_match((#[trigger] r@[j]).0, raw_level.spec_entries()[j])
                    && r@[j].1 == (YoleckBelongsToLevel { level: level_entity }),
        decreases n - i,
    {
        let e = raw_level.entries()[i].duplicate();
        r.push((e, YoleckBelongsToLevel { level: level_entity }));
        i = i + 1;
    }
    r
}

} // verus!
