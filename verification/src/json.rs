use vstd::prelude::*;
use vstd::string::*;

verus! {

/// A JSON number, held the way the level files hold it: a non-negative
/// integer, a negative integer, or a floating-point number kept as its IEEE-754 bits.
#[derive(Debug, PartialEq)]
pub enum JsonNumber {
    PosInt(u64),
    NegInt(i64),
    Float(u64),
}

/// A JSON document, as read from or written to `.yol` and `.yoli` files.
///
/// An object is the list of its members, in order. An object read from a file has each key
/// once (a JSON map keeps one value per key), and [`set_key`] keeps keys unique (see
/// [`lemma_set_key_keeps_keys_unique`]); where keys are unique, looking a key up finds its one
/// member. `==` on values compares objects member by member, in order, so two objects with the
/// same members in different orders are not equal here, though they are equal as JSON maps.
#[derive(Debug, PartialEq)]
pub enum JsonValue {
    Null,
    Bool(bool),
    Number(JsonNumber),
    String(String),
    Array(Vec<JsonValue>),
    /// The members of an object, in order.
    Object(Vec<(String, JsonValue)>),
}

/// The mathematical model of a JSON document.
pub enum JsonModel {
    Null,
    Bool(bool),
    Number(JsonNumber),
    Str(Seq<char>),
    Array(Seq<JsonModel>),
    Object(Seq<(Seq<char>, JsonModel)>),
}

pub open spec fn json_model(v: JsonValue) -> JsonModel
    decreases v, 0nat,
{
    match v {
        JsonValue::Null => JsonModel::Null,
        JsonValue::Bool(b) => JsonModel::Bool(b),
        JsonValue::Number(n) => JsonModel::Number(n),
        JsonValue::String(s) => JsonModel::Str(s@),
        JsonValue::Array(a) => JsonModel::Array(array_model(a, a.len() as nat)),
        JsonValue::Object(o) => JsonModel::Object(object_model(o, o.len() as nat)),
    }
}

/// The models of the first `n` elements of an array.
pub open spec fn array_model(a: Vec<JsonValue>, n: nat) -> Seq<JsonModel>
    decreases a, n,
{
    if n == 0 || n > a.len() {
        Seq::empty()
    } else {
        array_model(a, (n - 1) as nat).push(json_model(a[n - 1]))
    }
}

/// The models of the first `n` members of an object.
pub open spec fn object_model(o: Vec<(String, JsonValue)>, n: nat) -> Seq<(Seq<char>, JsonModel)>
    decreases o, n,
{
    if n == 0 || n > o.len() {
        Seq::empty()
    } else {
        object_model(o, (n - 1) as nat).push((o[n - 1].0@, json_model(o[n - 1].1)))
    }
}

impl View for JsonValue {
    type V = JsonModel;

    open spec fn view(&self) -> JsonModel {
        json_model(*self)
    }
}

/// The model of the elements of an array value.
pub open spec fn elements_model(a: Vec<JsonValue>) -> Seq<JsonModel> {
    array_model(a, a.len() as nat)
}

/// The model of the members of an object value.
pub open spec fn members_model(o: Vec<(String, JsonValue)>) -> Seq<(Seq<char>, JsonModel)> {
    object_model(o, o.len() as nat)
}

pub proof fn lemma_array_model(a: Vec<JsonValue>, n: nat)
    requires
        n <= a.len(),
    ensures
        array_model(a, n).len() == n,
        forall|i: int| 0 <= i < n ==> #[trigger] array_model(a, n)[i] == json_model(a[i]),
    decreases n,
{
    if n > 0 {
        lemma_array_model(a, (n - 1) as nat);
    }
}

pub proof fn lemma_object_model(o: Vec<(String, JsonValue)>, n: nat)
    requires
        n <= o.len(),
    ensures
        object_model(o, n).len() == n,
        forall|i: int|
            0 <= i < n ==> #[trigger] object_model(o, n)[i] == (o[i].0@, json_model(o[i].1)),
    decreases n,
{
    if n > 0 {
        lemma_object_model(o, (n - 1) as nat);
    }
}

pub proof fn lemma_elements_model(a: Vec<JsonValue>)
    ensures
        elements_model(a).len() == a.len(),
        forall|i: int| 0 <= i < a.len() ==> #[trigger] elements_model(a)[i] == json_model(a[i]),
{
    lemma_array_model(a, a.len() as nat);
}

pub proof fn lemma_members_model(o: Vec<(String, JsonValue)>)
    ensures
        members_model(o).len() == o.len(),
        forall|i: int|
            0 <= i < o.len() ==> #[trigger] members_model(o)[i] == (o[i].0@, json_model(o[i].1)),
{
    lemma_object_model(o, o.len() as nat);
}

/// The index of the first member of `o` whose key is `k`, or -1 when there is none.
pub open spec fn first_key_index(o: Seq<(Seq<char>, JsonModel)>, k: Seq<char>) -> int
    decreases o.len(),
{
    if o.len() == 0 {
        -1
    } else if first_key_index(o.drop_last(), k) >= 0 {
        first_key_index(o.drop_last(), k)
    } else if o.last().0 == k {
        o.len() - 1
    } else {
        -1
    }
}

/// The value of the member with key `k` (the first one, should there be several).
pub open spec fn model_lookup(o: Seq<(Seq<char>, JsonModel)>, k: Seq<char>) -> Option<JsonModel> {
    let i = first_key_index(o, k);
    if i >= 0 {
        Some(o[i].1)
    } else {
        None
    }
}

/// The members of `o` after `o[k] = v`: the first member with key `k` gets the value `v`,
/// or a new member is added at the end.
pub open spec fn model_set_key(
    o: Seq<(Seq<char>, JsonModel)>,
    k: Seq<char>,
    v: JsonModel,
) -> Seq<(Seq<char>, JsonModel)> {
    let i = first_key_index(o, k);
    if i >= 0 {
        o.update(i, (k, v))
    } else {
        o.push((k, v))
    }
}

pub proof fn lemma_first_key_index(o: Seq<(Seq<char>, JsonModel)>, k: Seq<char>)
    ensures
        -1 <= first_key_index(o, k) < o.len(),
        first_key_index(o, k) >= 0 ==> o[first_key_index(o, k)].0 == k,
        forall|j: int|
            0 <= j < o.len() && (first_key_index(o, k) < 0 || j < first_key_index(o, k))
                ==> #[trigger] o[j].0 != k,
    decreases o.len(),
{
    if o.len() > 0 {
        lemma_first_key_index(o.drop_last(), k);
        assert forall|j: int|
            0 <= j < o.len() && (first_key_index(o, k) < 0 || j < first_key_index(o, k))
                implies #[trigger] o[j].0 != k by {
            if j < o.len() - 1 {
                assert(o.drop_last()[j] == o[j]);
            }
        }
    }
}

/// No key occurs twice among the members of an object.
pub open spec fn keys_unique(o: Seq<(Seq<char>, JsonModel)>) -> bool {
    forall|i: int, j: int| 0 <= i < j < o.len() ==> #[trigger] o[i].0 != #[trigger] o[j].0
}

/// Setting a key keeps the keys of an object unique, and a lookup of that key afterwards finds
/// the value set, while every other key keeps its value.
pub proof fn lemma_set_key_keeps_keys_unique(
    o: Seq<(Seq<char>, JsonModel)>,
    k: Seq<char>,
    v: JsonModel,
)
    requires
        keys_unique(o),
    ensures
        keys_unique(model_set_key(o, k, v)),
        model_lookup(model_set_key(o, k, v), k) == Some(v),
        forall|other: Seq<char>|
            other != k ==> #[trigger] model_lookup(model_set_key(o, k, v), other) == model_lookup(
                o,
                other,
            ),
{
    lemma_first_key_index(o, k);
    let r = model_set_key(o, k, v);
    lemma_first_key_index(r, k);
    let i = first_key_index(o, k);
    assert forall|a: int, b: int| 0 <= a < b < r.len() implies #[trigger] r[a].0 != #[trigger] r[b].0 by {
        if i >= 0 {
            assert(r[a].0 == o[a].0);
            assert(r[b].0 == o[b].0);
        } else if b < o.len() {
            assert(r[a] == o[a]);
            assert(r[b] == o[b]);
        } else {
            assert(r[a] == o[a]);
        }
    }
    assert forall|other: Seq<char>|
        other != k implies #[trigger] model_lookup(r, other) == model_lookup(o, other) by {
        lemma_first_key_index(o, other);
        lemma_first_key_index(r, other);
        let fo = first_key_index(o, other);
        let fr = first_key_index(r, other);
        if fo >= 0 {
            assert(r[fo].0 == other);
            assert(fo != i);
            assert(r[fo] == o[fo]);
            if fr >= 0 && fr < fo {
                assert(r[fr].0 == o[fr].0);
            }
        } else if fr >= 0 {
            if fr < o.len() {
                assert(r[fr].0 == o[fr].0);
            }
        }
    }
    if i >= 0 {
        assert(r[i].0 == k);
    } else {
        assert(r[o.len() as int].0 == k);
        assert forall|j: int| 0 <= j < o.len() implies #[trigger] r[j].0 != k by {
            assert(r[j] == o[j]);
        }
    }
}

/// `first_key_index` is determined by the keys alone.
pub proof fn lemma_first_key_index_keys(
    o1: Seq<(Seq<char>, JsonModel)>,
    o2: Seq<(Seq<char>, JsonModel)>,
    k: Seq<char>,
)
    requires
        o1.len() == o2.len(),
        forall|j: int| 0 <= j < o1.len() ==> o1[j].0 == o2[j].0,
    ensures
        first_key_index(o1, k) == first_key_index(o2, k),
    decreases o1.len(),
{
    if o1.len() > 0 {
        lemma_first_key_index_keys(o1.drop_last(), o2.drop_last(), k);
    }
}

/// Setting a key and reading it back gives the value that was set; setting it again to the
/// same value changes nothing.
pub proof fn lemma_set_key_lookup(o: Seq<(Seq<char>, JsonModel)>, k: Seq<char>, v: JsonModel)
    ensures
        model_lookup(model_set_key(o, k, v), k) == Some(v),
        model_set_key(model_set_key(o, k, v), k, v) == model_set_key(o, k, v),
{
    let i = first_key_index(o, k);
    let o2 = model_set_key(o, k, v);
    lemma_first_key_index(o, k);
    if i >= 0 {
        lemma_first_key_index_keys(o, o2, k);
        assert(o2.update(i, (k, v)) =~= o2);
    } else {
        lemma_first_key_index(o2, k);
        assert(o2.drop_last() =~= o);
        assert(first_key_index(o2, k) == o.len());
        assert(o2.update(o.len() as int, (k, v)) =~= o2);
    }
}

impl JsonNumber {
    /// The number as a `u64`, when it is a non-negative integer.
    pub open spec fn spec_as_u64(&self) -> Option<u64> {
        match self {
            JsonNumber::PosInt(n) => Some(*n),
            _ => None,
        }
    }

    pub fn as_u64(&self) -> (r: Option<u64>)
        ensures
            r == self.spec_as_u64(),
    {
        match self {
            JsonNumber::PosInt(n) => Some(*n),
            _ => None,
        }
    }
}

/// The model's value as a `u64`, when it is a non-negative integer.
pub open spec fn model_as_u64(m: JsonModel) -> Option<u64> {
    match m {
        JsonModel::Number(n) => n.spec_as_u64(),
        _ => None,
    }
}

impl JsonValue {
    /// An empty JSON object.
    pub fn empty_object() -> (r: JsonValue)
        ensures
            r@ == JsonModel::Object(Seq::empty()),
    {
        let r = JsonValue::Object(Vec::new());
        assert(r@ == JsonModel::Object(Seq::empty())) by {
            match r {
                JsonValue::Object(o) => {
                    lemma_members_model(o);
                    assert(members_model(o) =~= Seq::empty());
                },
                _ => {},
            }
        }
        r
    }

    /// The value as a `u64`, when it is a non-negative integer.
    pub fn as_u64(&self) -> (r: Option<u64>)
        ensures
            r == model_as_u64(self@),
    {
        match self {
            JsonValue::Number(n) => n.as_u64(),
            _ => None,
        }
    }
}

/// The index of the first member of `o` with key `key`.
pub fn find_key(o: &Vec<(String, JsonValue)>, key: &str) -> (r: Option<usize>)
    ensures
        match r {
            Some(i) => i as int == first_key_index(members_model(*o), key@),
            None => first_key_index(members_model(*o), key@) == -1,
        },
{
    let ghost m = members_model(*o);
    proof {
        lemma_members_model(*o);
        assert(m.take(0).len() == 0);
    }
    let mut i: usize = 0;
    while i < o.len()
        invariant
            i <= o.len(),
            m == members_model(*o),
            m.len() == o.len(),
            forall|j: int| 0 <= j < o.len() ==> #[trigger] m[j] == (o[j].0@, json_model(o[j].1)),
            first_key_index(m.take(i as int), key@) == -1,
        decreases o.len() - i,
    {
        let ghost t = m.take(i + 1);
        assert(t.drop_last() =~= m.take(i as int));
        if o[i].0.as_str().unicode_len() == key.unicode_len() && str_equal(o[i].0.as_str(), key) {
            assert(t.last().0 == key@);
            proof {
                lemma_first_key_index_prefix(m, i as int + 1);
            }
            return Some(i);
        }
        i = i + 1;
    }
    assert(m.take(i as int) =~= m);
    None
}

/// The first index of a sequence is that of any sequence it is a prefix of, when it is found
/// there.
pub proof fn lemma_first_key_index_prefix(o: Seq<(Seq<char>, JsonModel)>, n: int)
    requires
        0 <= n <= o.len(),
    ensures
        forall|k: Seq<char>|
            first_key_index(o.take(n), k) >= 0 ==> #[trigger] first_key_index(o, k)
                == first_key_index(o.take(n), k),
    decreases o.len() - n,
{
    if n < o.len() {
        lemma_first_key_index_prefix(o, n + 1);
        assert(o.take(n + 1).drop_last() =~= o.take(n));
    } else {
        assert(o.take(n) =~= o);
    }
}

/// Whether two strings hold the same characters.
pub fn str_equal(a: &str, b: &str) -> (r: bool)
    ensures
        r == (a@ == b@),
{
    let n = a.unicode_len();
    if n != b.unicode_len() {
        return false;
    }
    let mut i: usize = 0;
    while i < n
        invariant
            i <= n,
            n == a@.len(),
            n == b@.len(),
            forall|j: int| 0 <= j < i ==> a@[j] == b@[j],
        decreases n - i,
    {
        if a.get_char(i) != b.get_char(i) {
            return false;
        }
        i = i + 1;
    }
    assert(a@ =~= b@);
    true
}


/// Puts `x` at index `i` of `v` and gives back what stood there.
pub fn replace_element(v: &mut Vec<JsonValue>, i: usize, x: JsonValue) -> (r: JsonValue)
    requires
        i < old(v).len(),
    ensures
        r == old(v)@[i as int],
        final(v)@ == old(v)@.update(i as int, x),
        elements_model(*final(v)) == elements_model(*old(v)).update(i as int, json_model(x)),
{
    let r = v.remove(i);
    v.insert(i, x);
    proof {
        assert(v@ =~= old(v)@.update(i as int, x));
        lemma_elements_model(*old(v));
        lemma_elements_model(*v);
        assert(elements_model(*v) =~= elements_model(*old(v)).update(i as int, json_model(x)));
    }
    r
}

/// Puts the member `x` at index `i` of `o` and gives back what stood there.
pub fn replace_member(o: &mut Vec<(String, JsonValue)>, i: usize, x: (String, JsonValue)) -> (r: (
    String,
    JsonValue,
))
    requires
        i < old(o).len(),
    ensures
        r == old(o)@[i as int],
        final(o)@ == old(o)@.update(i as int, x),
        members_model(*final(o)) == members_model(*old(o)).update(
            i as int,
            (x.0@, json_model(x.1)),
        ),
{
    let r = o.remove(i);
    o.insert(i, x);
    proof {
        assert(o@ =~= old(o)@.update(i as int, x));
        lemma_members_model(*old(o));
        lemma_members_model(*o);
        assert(members_model(*o) =~= members_model(*old(o)).update(
            i as int,
            (x.0@, json_model(x.1)),
        ));
    }
    r
}

/// `o[key] = v`: the first member with this key gets the value `v`, or a new member is added
/// at the end.
pub fn set_key(o: &mut Vec<(String, JsonValue)>, key: &str, v: JsonValue)
    ensures
        members_model(*final(o)) == model_set_key(members_model(*old(o)), key@, json_model(v)),
{
    proof {
        lemma_members_model(*o);
        lemma_first_key_index(members_model(*o), key@);
    }
    match find_key(o, key) {
        Some(i) => {
            replace_member(o, i, (key.to_owned(), v));
        },
        None => {
            let ghost before = *o;
            o.push((key.to_owned(), v));
            proof {
                lemma_members_model(*o);
                assert(members_model(*o) =~= members_model(before).push((key@, json_model(v))));
            }
        },
    }
}

/// The object with the single member `key: v`.
pub fn single_member_object(key: String, v: JsonValue) -> (r: JsonValue)
    ensures
        r@ == JsonModel::Object(seq![(key@, json_model(v))]),
{
    let ghost k = key@;
    let ghost m = json_model(v);
    let mut o: Vec<(String, JsonValue)> = Vec::new();
    o.push((key, v));
    proof {
        lemma_members_model(o);
        assert(members_model(o) =~= seq![(k, m)]);
    }
    JsonValue::Object(o)
}


impl JsonNumber {
    pub fn copy_number(&self) -> (r: JsonNumber)
        ensures
            r == *self,
    {
        match self {
            JsonNumber::PosInt(n) => JsonNumber::PosInt(*n),
            JsonNumber::NegInt(n) => JsonNumber::NegInt(*n),
            JsonNumber::Float(n) => JsonNumber::Float(*n),
        }
    }
}

impl JsonValue {
    /// A copy of the whole document.
    pub fn deep_clone(&self) -> (r: JsonValue)
        ensures
            r@ == self@,
        decreases self,
    {
        match self {
            JsonValue::Null => JsonValue::Null,
            JsonValue::Bool(b) => JsonValue::Bool(*b),
            JsonValue::Number(n) => JsonValue::Number(n.copy_number()),
            JsonValue::String(s) => JsonValue::String(s.clone()),
            JsonValue::Array(a) => {
                let mut out: Vec<JsonValue> = Vec::new();
                let mut i: usize = 0;
                proof {
                    lemma_elements_model(*a);
                }
                while i < a.len()
                    invariant
                        i <= a.len(),
                        *self == JsonValue::Array(*a),
                        out.len() == i,
                        forall|j: int| 0 <= j < i ==> json_model(#[trigger] out@[j]) == json_model(a@[j]),
                    decreases a.len() - i,
                {
                    proof {
                        assert(decreases_to!(*self => (*self)->Array_0));
                        vstd::std_specs::vec::axiom_vec_index_decreases(*a, i as int);
                        assert(decreases_to!(*a => a[i as int]));
                        assert(decreases_to!(*self => a[i as int]));
                    }
                    let c = a[i].deep_clone();
                    out.push(c);
                    i = i + 1;
                }
                proof {
                    lemma_elements_model(*a);
                    lemma_elements_model(out);
                    assert(elements_model(out) =~= elements_model(*a));
                }
                JsonValue::Array(out)
            },
            JsonValue::Object(o) => {
                let mut out: Vec<(String, JsonValue)> = Vec::new();
                let mut i: usize = 0;
                while i < o.len()
                    invariant
                        i <= o.len(),
                        *self == JsonValue::Object(*o),
                        out.len() == i,
                        forall|j: int|
                            0 <= j < i ==> (#[trigger] out@[j]).0@ == o@[j].0@ && json_model(out@[j].1)
                                == json_model(o@[j].1),
                    decreases o.len() - i,
                {
                    proof {
                        assert(decreases_to!(*self => (*self)->Object_0));
                        vstd::std_specs::vec::axiom_vec_index_decreases(*o, i as int);
                        assert(decreases_to!(*o => o[i as int]));
                        assert(decreases_to!(o[i as int] => o[i as int].1));
                        assert(decreases_to!(*self => o[i as int].1));
                    }
                    let c = o[i].1.deep_clone();
                    out.push((o[i].0.clone(), c));
                    i = i + 1;
                }
                proof {
                    lemma_members_model(*o);
                    lemma_members_model(out);
                    assert(members_model(out) =~= members_model(*o));
                }
                JsonValue::Object(out)
            },
        }
    }
}


/// `value.get_mut(key).map(take)`: the value of the member `key` of an object, leaving `null` in
/// its place; nothing for other values or missing keys.
pub open spec fn model_take_key(m: JsonModel, k: Seq<char>) -> (Option<JsonModel>, JsonModel) {
    match m {
        JsonModel::Object(o) => match model_lookup(o, k) {
            Some(v) => (Some(v), JsonModel::Object(model_set_key(o, k, JsonModel::Null))),
            None => (None, m),
        },
        _ => (None, m),
    }
}

/// Takes the value of the member `key` out of an object, leaving `null` in its place.
pub fn take_key(value: &mut JsonValue, key: &str) -> (r: Option<JsonValue>)
    ensures
        (match r {
            Some(v) => Some(v@),
            None => None,
        }, final(value)@) == model_take_key(old(value)@, key@),
{
    match value {
        JsonValue::Object(o) => {
            proof {
                lemma_members_model(*o);
                lemma_first_key_index(members_model(*o), key@);
            }
            match find_key(o, key) {
                Some(i) => {
                    let ghost o0 = *o;
                    let (k, v) = replace_member(o, i, (key.to_owned(), JsonValue::Null));
                    assert(members_model(*o) == model_set_key(members_model(o0), key@, JsonModel::Null));
                    Some(v)
                },
                None => None,
            }
        },
        _ => None,
    }
}

} // verus!
