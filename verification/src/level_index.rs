use vstd::prelude::*;

use crate::json::str_equal;
use crate::specs_registration::{contains_string, strings_view};

verus! {

/// Describes a level in the index.
#[derive(Debug, Clone)]
pub struct YoleckLevelIndexEntry {
    /// The name of the file containing the level, relative to where the levels index file is.
    pub filename: String,
}

/// The file names of index entries.
pub open spec fn filenames(entries: Seq<YoleckLevelIndexEntry>) -> Seq<Seq<char>> {
    entries.map_values(|e: YoleckLevelIndexEntry| e.filename@)
}

/// Internal Yoleck metadata for the levels index.
#[derive(Debug)]
pub struct YoleckLevelIndexHeader {
    format_version: usize,
}

impl YoleckLevelIndexHeader {
    pub closed spec fn spec_version(&self) -> usize {
        self.format_version
    }

    pub fn format_version(&self) -> (r: usize)
        ensures
            r == self.spec_version(),
    {
        self.format_version
    }
}

/// The levels of the game, in order: what an `index.yoli` file holds.
#[derive(Debug)]
pub struct YoleckLevelIndex(YoleckLevelIndexHeader, Vec<YoleckLevelIndexEntry>);

impl YoleckLevelIndex {
    pub closed spec fn spec_format_version(&self) -> usize {
        self.0.format_version
    }

    pub closed spec fn spec_entries(&self) -> Seq<YoleckLevelIndexEntry> {
        self.1@
    }

    /// An index of the current format (version 1) listing `entries`.
    pub fn new(entries: Vec<YoleckLevelIndexEntry>) -> (r: Self)
        ensures
            r.spec_format_version() == 1,
            r.spec_entries() == entries@,
    {
        YoleckLevelIndex(YoleckLevelIndexHeader { format_version: 1 }, entries)
    }

    /// An index read from a file, with the format version it was written with.
    pub fn from_parts(format_version: usize, entries: Vec<YoleckLevelIndexEntry>) -> (r: Self)
        ensures
            r.spec_format_version() == format_version,
            r.spec_entries() == entries@,
    {
        YoleckLevelIndex(YoleckLevelIndexHeader { format_version }, entries)
    }

    pub fn header(&self) -> (r: &YoleckLevelIndexHeader)
        ensures
            r.spec_version() == self.spec_format_version(),
    {
        &self.0
    }

    /// The entries, in the order of the levels.
    pub fn entries(&self) -> (r: &[YoleckLevelIndexEntry])
        ensures
            r@ == self.spec_entries(),
    {
        self.1.as_slice()
    }
}

/// Whether `a` comes before `b` in the order of `String`: by the first character at which they
/// differ (by code point, which is the order of their UTF-8 bytes too), a text before the texts
/// it starts.
pub open spec fn text_less(a: Seq<char>, b: Seq<char>) -> bool
    decreases a.len(),
{
    if b.len() == 0 {
        false
    } else if a.len() == 0 {
        true
    } else if a[0] != b[0] {
        (a[0] as int) < (b[0] as int)
    } else {
        text_less(a.drop_first(), b.drop_first())
    }
}

pub proof fn lemma_text_less_irreflexive(a: Seq<char>)
    ensures
        !text_less(a, a),
    decreases a.len(),
{
    if a.len() > 0 {
        lemma_text_less_irreflexive(a.drop_first());
    }
}

pub proof fn lemma_text_less_total(a: Seq<char>, b: Seq<char>)
    ensures
        text_less(a, b) || text_less(b, a) || a == b,
    decreases a.len(),
{
    if a.len() > 0 && b.len() > 0 {
        if a[0] == b[0] {
            lemma_text_less_total(a.drop_first(), b.drop_first());
            if a.drop_first() == b.drop_first() {
                assert(a =~= seq![a[0]] + a.drop_first());
                assert(b =~= seq![b[0]] + b.drop_first());
            }
        } else {
            assert((a[0] as int) != (b[0] as int));
        }
    } else if a.len() == 0 && b.len() == 0 {
        assert(a =~= b);
    }
}

pub proof fn lemma_text_less_transitive(a: Seq<char>, b: Seq<char>, c: Seq<char>)
    requires
        text_less(a, b),
        text_less(b, c),
    ensures
        text_less(a, c),
    decreases a.len(),
{
    if a.len() > 0 && b.len() > 0 && c.len() > 0 && a[0] == b[0] && b[0] == c[0] {
        lemma_text_less_transitive(a.drop_first(), b.drop_first(), c.drop_first());
    }
}

pub proof fn lemma_text_less_asymmetric(a: Seq<char>, b: Seq<char>)
    requires
        text_less(a, b),
    ensures
        !text_less(b, a),
{
    if text_less(b, a) {
        lemma_text_less_transitive(a, b, a);
        lemma_text_less_irreflexive(a);
    }
}

/// Whether `a` comes before `b`.
pub fn str_less(a: &str, b: &str) -> (r: bool)
    ensures
        r == text_less(a@, b@),
{
    let na = a.unicode_len();
    let nb = b.unicode_len();
    let mut i: usize = 0;
    assert(a@.skip(0) =~= a@);
    assert(b@.skip(0) =~= b@);
    while i < na && i < nb && a.get_char(i) == b.get_char(i)
        invariant
            na == a@.len(),
            nb == b@.len(),
            i <= na,
            i <= nb,
            a@.subrange(0, i as int) == b@.subrange(0, i as int),
            text_less(a@, b@) == text_less(a@.skip(i as int), b@.skip(i as int)),
        decreases na - i,
    {
        proof {
            let sa = a@.skip(i as int);
            let sb = b@.skip(i as int);
            assert(sa.drop_first() =~= a@.skip(i + 1));
            assert(sb.drop_first() =~= b@.skip(i + 1));
            assert(a@.subrange(0, i + 1) =~= a@.subrange(0, i as int).push(a@[i as int]));
            assert(b@.subrange(0, i + 1) =~= b@.subrange(0, i as int).push(b@[i as int]));
        }
        i = i + 1;
    }
    if i == nb {
        false
    } else if i == na {
        true
    } else {
        (a.get_char(i) as u32) < (b.get_char(i) as u32)
    }
}

/// Whether `s` is strictly increasing: sorted, with nothing twice.
pub open spec fn strictly_sorted(s: Seq<Seq<char>>) -> bool {
    forall|i: int, j: int| 0 <= i < j < s.len() ==> text_less(#[trigger] s[i], #[trigger] s[j])
}

/// Whether a file is a level file: its extension (what follows the last dot, when something
/// precedes that dot) is `yol`.
pub open spec fn is_level_file_name(name: Seq<char>) -> bool {
    name.len() > 4 && name.subrange(name.len() - 4, name.len() as int) == ".yol"@
}

/// Whether a file of the levels directory is a level file.
pub fn level_file_name(name: &str) -> (r: bool)
    ensures
        r == is_level_file_name(name@),
{
    proof {
        reveal_strlit(".yol");
    }
    let n = name.unicode_len();
    if n <= 4 {
        return false;
    }
    str_equal(name.substring_char(n - 4, n), ".yol")
}

/// The level files the editor can open, in the order of their names.
pub struct YoleckEditableLevels {
    levels: Vec<String>,
}

impl View for YoleckEditableLevels {
    type V = Seq<Seq<char>>;

    closed spec fn view(&self) -> Seq<Seq<char>> {
        strings_view(self.levels@)
    }
}

impl YoleckEditableLevels {
    pub closed spec fn wf(&self) -> bool {
        strictly_sorted(self@)
    }

    pub fn new() -> (r: Self)
        ensures
            r.wf(),
            r@ == Seq::<Seq<char>>::empty(),
    {
        let r = YoleckEditableLevels { levels: Vec::new() };
        assert(r@ =~= Seq::<Seq<char>>::empty());
        r
    }

    /// The names of the level files (relative to the levels directory).
    pub fn names(&self) -> (r: &Vec<String>)
        requires
            self.wf(),
        ensures
            strings_view(r@) == self@,
            strictly_sorted(self@),
    {
        &self.levels
    }

    /// Add a level file name, keeping the names sorted; a name already there stays once.
    pub fn insert(&mut self, name: &str)
        requires
            old(self).wf(),
        ensures
            final(self).wf(),
            final(self)@.to_set() == old(self)@.to_set().insert(name@),
    {
        let ghost s0 = self@;
        let n = self.levels.len();
        let mut p: usize = 0;
        while p < n && str_less(self.levels[p].as_str(), name)
            invariant
                n == self.levels.len(),
                s0 == self@,
                strictly_sorted(s0),
                p <= n,
                forall|j: int| 0 <= j < p ==> text_less(#[trigger] s0[j], name@),
            decreases n - p,
        {
            p = p + 1;
        }
        if p < n && str_equal(self.levels[p].as_str(), name) {
            assert(s0.to_set().insert(name@) =~= s0.to_set()) by {
                assert(s0[p as int] == name@);
            }
            return;
        }
        proof {
            if p < n {
                lemma_text_less_total(s0[p as int], name@);
            }
        }
        self.levels.insert(p, String::from_str(name));
        proof {
            let s1 = self@;
            assert(s1 =~= s0.insert(p as int, name@));
            assert forall|i: int, j: int| 0 <= i < j < s1.len() implies text_less(
                #[trigger] s1[i],
                #[trigger] s1[j],
            ) by {
                if j < p {
                    assert(s1[i] == s0[i] && s1[j] == s0[j]);
                } else if j == p {
                    assert(s1[i] == s0[i]);
                } else if i == p {
                    assert(s1[j] == s0[j - 1]);
                    if j - 1 > p {
                        lemma_text_less_transitive(name@, s0[p as int], s0[j - 1]);
                    }
                } else if i < p {
                    assert(s1[i] == s0[i] && s1[j] == s0[j - 1]);
                } else {
                    assert(s1[i] == s0[i - 1] && s1[j] == s0[j - 1]);
                }
            }
            assert forall|x: Seq<char>| s1.contains(x) <==> s0.to_set().insert(name@).contains(x) by {
                if s1.contains(x) {
                    let k = choose|k: int| 0 <= k < s1.len() && s1[k] == x;
                    if k < p {
                        assert(s0[k] == x);
                    } else if k > p {
                        assert(s0[k - 1] == x);
                    }
                }
                if s0.contains(x) {
                    let k = choose|k: int| 0 <= k < s0.len() && s0[k] == x;
                    if k < p {
                        assert(s1[k] == x);
                    } else {
                        assert(s1[k + 1] == x);
                    }
                }
                if x == name@ {
                    assert(s1[p as int] == x);
                }
            }
            assert(s1.to_set() =~= s0.to_set().insert(name@));
        }
    }

    /// Replace the names with the level files among the files of the levels directory.
    pub fn update_from_directory(&mut self, file_names: &Vec<String>)
        ensures
            final(self).wf(),
            final(self)@.to_set() == strings_view(file_names@).filter(
                |n: Seq<char>| is_level_file_name(n),
            ).to_set(),
    {
        let ghost p = |n: Seq<char>| is_level_file_name(n);
        let mut levels = YoleckEditableLevels::new();
        let mut i: usize = 0;
        assert(strings_view(file_names@.take(0)).filter(p) =~= Seq::<Seq<char>>::empty());
        assert(levels@.to_set() =~= Set::<Seq<char>>::empty());
        assert(Seq::<Seq<char>>::empty().to_set() =~= Set::<Seq<char>>::empty());
        while i < file_names.len()
            invariant
                i <= file_names.len(),
                p == (|n: Seq<char>| is_level_file_name(n)),
                levels.wf(),
                levels@.to_set() == strings_view(file_names@.take(i as int)).filter(p).to_set(),
            decreases file_names.len() - i,
        {
            let ghost before = strings_view(file_names@.take(i as int));
            let name = file_names[i].as_str();
            proof {
                assert(strings_view(file_names@.take(i + 1)) =~= before.push(name@));
                before.lemma_filter_push(name@, p);
            }
            if level_file_name(name) {
                levels.insert(name);
                proof {
                    before.filter(p).lemma_push_to_set_commute(name@);
                }
            }
            i = i + 1;
        }
        assert(file_names@.take(i as int) =~= file_names@);
        *self = levels;
    }
}

/// The index after the levels directory was listed: the entries of files that are still there,
/// in their order, then the level files that the index did not list, in the order given.
pub open spec fn spec_reconcile_index(index: Seq<Seq<char>>, names: Seq<Seq<char>>) -> Seq<
    Seq<char>,
> {
    index.filter(|f: Seq<char>| names.contains(f)) + names.filter(|f: Seq<char>| !index.contains(f))
}

/// Bring the index in line with the level files of the directory (see
/// [`spec_reconcile_index`]).
pub fn reconcile_index(index: &Vec<YoleckLevelIndexEntry>, names: &Vec<String>) -> (r: Vec<
    YoleckLevelIndexEntry,
>)
    ensures
        filenames(r@) == spec_reconcile_index(filenames(index@), strings_view(names@)),
{
    let ghost fi = filenames(index@);
    let ghost ns = strings_view(names@);
    let ghost in_names = |f: Seq<char>| ns.contains(f);
    let ghost not_in_index = |f: Seq<char>| !fi.contains(f);
    let mut r: Vec<YoleckLevelIndexEntry> = Vec::new();
    let mut index_names: Vec<String> = Vec::new();
    let mut i: usize = 0;
    assert(fi.take(0).filter(in_names) =~= Seq::<Seq<char>>::empty());
    assert(filenames(r@) =~= Seq::<Seq<char>>::empty());
    assert(strings_view(index_names@) =~= fi.take(0));
    while i < index.len()
        invariant
            i <= index.len(),
            fi == filenames(index@),
            ns == strings_view(names@),
            in_names == (|f: Seq<char>| ns.contains(f)),
            filenames(r@) == fi.take(i as int).filter(in_names),
            strings_view(index_names@) == fi.take(i as int),
        decreases index.len() - i,
    {
        let f = index[i].filename.as_str();
        proof {
            assert(fi.take(i + 1) =~= fi.take(i as int).push(f@));
            fi.take(i as int).lemma_filter_push(f@, in_names);
        }
        let ghost r0 = filenames(r@);
        if contains_string(names, f) {
            r.push(YoleckLevelIndexEntry { filename: index[i].filename.clone() });
            assert(filenames(r@) =~= r0.push(f@));
        }
        let ghost v0 = strings_view(index_names@);
        index_names.push(String::from_str(f));
        assert(strings_view(index_names@) =~= v0.push(f@));
        i = i + 1;
    }
    assert(fi.take(i as int) =~= fi);
    let ghost first = filenames(r@);
    let mut j: usize = 0;
    assert(ns.take(0).filter(not_in_index) =~= Seq::<Seq<char>>::empty());
    assert(first + ns.take(0).filter(not_in_index) =~= first);
    while j < names.len()
        invariant
            j <= names.len(),
            fi == filenames(index@),
            ns == strings_view(names@),
            strings_view(index_names@) == fi,
            not_in_index == (|f: Seq<char>| !fi.contains(f)),
            filenames(r@) == first + ns.take(j as int).filter(not_in_index),
        decreases names.len() - j,
    {
        let n = names[j].as_str();
        proof {
            assert(ns.take(j + 1) =~= ns.take(j as int).push(n@));
            ns.take(j as int).lemma_filter_push(n@, not_in_index);
        }
        let ghost r0 = filenames(r@);
        if !contains_string(&index_names, n) {
            r.push(YoleckLevelIndexEntry { filename: String::from_str(n) });
            assert(filenames(r@) =~= r0.push(n@));
            assert(first + ns.take(j as int).filter(not_in_index).push(n@) =~= (first + ns.take(
                j as int,
            ).filter(not_in_index)).push(n@));
        }
        j = j + 1;
    }
    assert(ns.take(j as int) =~= ns);
    r
}

proof fn lemma_filter_contains_iff(s: Seq<Seq<char>>, p: spec_fn(Seq<char>) -> bool, x: Seq<char>)
    ensures
        s.filter(p).contains(x) <==> (s.contains(x) && p(x)),
{
    broadcast use vstd::seq_lib::group_filter_ensures;

    if s.filter(p).contains(x) {
        s.lemma_filter_contains_rev(p, x);
        let k = choose|k: int| 0 <= k < s.filter(p).len() && s.filter(p)[k] == x;
        assert(p(s.filter(p)[k]));
    }
    if s.contains(x) && p(x) {
        let k = choose|k: int| 0 <= k < s.len() && s[k] == x;
        s.lemma_filter_contains(p, k);
    }
}

proof fn lemma_filter_same(s: Seq<Seq<char>>, p: spec_fn(Seq<char>) -> bool, q: spec_fn(Seq<char>) -> bool)
    requires
        forall|k: int| 0 <= k < s.len() ==> p(#[trigger] s[k]) == q(s[k]),
    ensures
        s.filter(p) == s.filter(q),
    decreases s.len(),
{
    reveal(Seq::filter);
    if s.len() > 0 {
        lemma_filter_same(s.drop_last(), p, q);
    }
}

/// Listing the directory again changes nothing: bringing an index that was just brought in line
/// with a directory's level files in line with them again gives it back unchanged.
pub proof fn lemma_reconcile_index_idempotent(index: Seq<Seq<char>>, names: Seq<Seq<char>>)
    ensures
        spec_reconcile_index(spec_reconcile_index(index, names), names) == spec_reconcile_index(
            index,
            names,
        ),
{
    let r = spec_reconcile_index(index, names);
    let in_names = |f: Seq<char>| names.contains(f);
    let not_in_index = |f: Seq<char>| !index.contains(f);
    let not_in_r = |f: Seq<char>| !r.contains(f);
    let a = index.filter(in_names);
    let b = names.filter(not_in_index);
    assert(r == a + b);
    // Every file of the reconciled index is in the directory.
    assert forall|k: int| 0 <= k < r.len() implies in_names(#[trigger] r[k]) by {
        if k < a.len() {
            lemma_filter_contains_iff(index, in_names, a[k]);
            assert(a.contains(a[k]));
        } else {
            assert(r[k] == b[k - a.len()]);
            lemma_filter_contains_iff(names, not_in_index, b[k - a.len()]);
            assert(b.contains(b[k - a.len()]));
        }
    }
    assert(r.filter(in_names) == r) by {
        lemma_filter_same(r, in_names, |f: Seq<char>| true);
        lemma_filter_true(r);
    }
    // Every file of the directory is in the reconciled index.
    assert forall|k: int| 0 <= k < names.len() implies !not_in_r(#[trigger] names[k]) by {
        let x = names[k];
        assert(names.contains(x));
        if index.contains(x) {
            lemma_filter_contains_iff(index, in_names, x);
            let m = choose|m: int| 0 <= m < a.len() && a[m] == x;
            assert(r[m] == x);
        } else {
            lemma_filter_contains_iff(names, not_in_index, x);
            let m = choose|m: int| 0 <= m < b.len() && b[m] == x;
            assert(r[a.len() + m] == x);
        }
    }
    assert(names.filter(not_in_r) =~= Seq::<Seq<char>>::empty()) by {
        names.lemma_all_neg_filter_empty(not_in_r);
    }
    assert(r + Seq::<Seq<char>>::empty() =~= r);
}

proof fn lemma_filter_true(s: Seq<Seq<char>>)
    ensures
        s.filter(|f: Seq<char>| true) == s,
    decreases s.len(),
{
    reveal(Seq::filter);
    if s.len() > 0 {
        lemma_filter_true(s.drop_last());
        assert(s.drop_last().push(s.last()) =~= s);
    } else {
        assert(s.filter(|f: Seq<char>| true) =~= s);
    }
}

/// After reconciling, the index lists exactly the level files of the directory.
pub proof fn lemma_reconcile_index_lists_directory(index: Seq<Seq<char>>, names: Seq<Seq<char>>)
    ensures
        spec_reconcile_index(index, names).to_set() == names.to_set(),
{
    let r = spec_reconcile_index(index, names);
    let in_names = |f: Seq<char>| names.contains(f);
    let not_in_index = |f: Seq<char>| !index.contains(f);
    let a = index.filter(in_names);
    let b = names.filter(not_in_index);
    assert forall|x: Seq<char>| r.contains(x) <==> names.contains(x) by {
        lemma_filter_contains_iff(index, in_names, x);
        lemma_filter_contains_iff(names, not_in_index, x);
        if r.contains(x) {
            let k = choose|k: int| 0 <= k < r.len() && r[k] == x;
            if k < a.len() {
                assert(a.contains(x));
            } else {
                assert(b[k - a.len()] == x);
                assert(b.contains(x));
            }
        }
        if names.contains(x) {
            if index.contains(x) {
                let m = choose|m: int| 0 <= m < a.len() && a[m] == x;
                assert(r[m] == x);
            } else {
                let m = choose|m: int| 0 <= m < b.len() && b[m] == x;
                assert(r[a.len() + m] == x);
            }
        }
    }
    assert(r.to_set() =~= names.to_set());
}

/// Move the level at `index` before the one preceding it (the "^" and "v" buttons of the levels
/// list).
pub fn swap_with_previous(files: &mut Vec<YoleckLevelIndexEntry>, index: usize)
    requires
        0 < index < old(files)@.len(),
    ensures
        final(files)@ == old(files)@.update(index - 1, old(files)@[index as int]).update(
            index as int,
            old(files)@[index - 1],
        ),
{
    let moved = files.remove(index);
    files.insert(index - 1, moved);
    assert(files@ =~= old(files)@.update(index - 1, old(files)@[index as int]).update(
        index as int,
        old(files)@[index - 1],
    ));
}

} // verus!
