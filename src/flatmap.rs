//! Flat metadata maps: dotted-path keys to JSON-like values.
use vstd::prelude::*;

verus! {

/// Mathematical model of a JSON-like value. An array holds objects, and an
/// object is a sequence of (key, value) entries.
pub enum FlatModel {
    Null,
    Bool(bool),
    Integer(i64),
    Unsigned(u64),
    Real(Seq<char>),
    Str(Seq<char>),
    Array(Seq<Seq<(Seq<char>, FlatModel)>>),
    Object(Seq<(Seq<char>, FlatModel)>),
}

/// A JSON-like value. A real keeps the text it was written as; an array
/// holds objects.
#[derive(Debug)]
pub enum FlatValue {
    Null,
    Bool(bool),
    Integer(i64),
    Unsigned(u64),
    Real(String),
    Str(String),
    Array(Vec<FlatMap>),
    Object(FlatMap),
}

/// A map from dotted paths to values, in the order in which keys were first
/// inserted. Its keys are unique (`keys_unique`): `new` and `insert` keep
/// them so, and so does every map the library builds.
#[derive(Debug)]
pub struct FlatMap {
    pub entries: Vec<(String, FlatValue)>,
}

impl FlatValue {
    pub open spec fn view(&self) -> FlatModel
        decreases self, 0nat,
    {
        match self {
            FlatValue::Null => FlatModel::Null,
            FlatValue::Bool(b) => FlatModel::Bool(*b),
            FlatValue::Integer(i) => FlatModel::Integer(*i),
            FlatValue::Unsigned(u) => FlatModel::Unsigned(*u),
            FlatValue::Object(m) => FlatModel::Object(m.view()),
            FlatValue::Real(s) => FlatModel::Real(s@),
            FlatValue::Str(s) => FlatModel::Str(s@),
            FlatValue::Array(items) => FlatModel::Array(
                Seq::new(
                    items@.len(),
                    |i: int|
                        if 0 <= i < items@.len() {
                            items@[i].view()
                        } else {
                            arbitrary()
                        },
                ),
            ),
        }
    }
}

impl FlatMap {
    pub open spec fn view(&self) -> Seq<(Seq<char>, FlatModel)>
        decreases self, 1nat,
    {
        Seq::new(
            self.entries@.len(),
            |i: int|
                if 0 <= i < self.entries@.len() {
                    (self.entries@[i].0@, self.entries@[i].1.view())
                } else {
                    arbitrary()
                },
        )
    }
}

/// The first index at or after `i` whose key is `k`, or -1.
pub open spec fn key_index_from(m: Seq<(Seq<char>, FlatModel)>, k: Seq<char>, i: int) -> int
    decreases m.len() - i,
{
    if i < 0 || i >= m.len() {
        -1
    } else if m[i].0 == k {
        i
    } else {
        key_index_from(m, k, i + 1)
    }
}

/// The index of key `k` in `m`, or -1.
pub open spec fn key_index(m: Seq<(Seq<char>, FlatModel)>, k: Seq<char>) -> int {
    key_index_from(m, k, 0)
}

/// `m` with `k` bound to `v`: an existing entry is replaced in place, a new
/// key is appended.
pub open spec fn put(m: Seq<(Seq<char>, FlatModel)>, k: Seq<char>, v: FlatModel) -> Seq<(Seq<char>, FlatModel)> {
    if key_index(m, k) >= 0 {
        m.update(key_index(m, k), (k, v))
    } else {
        m.push((k, v))
    }
}

/// The value bound to `k` in `m`.
pub open spec fn lookup(m: Seq<(Seq<char>, FlatModel)>, k: Seq<char>) -> Option<FlatModel> {
    if key_index(m, k) >= 0 {
        Some(m[key_index(m, k)].1)
    } else {
        None
    }
}

/// No key occurs twice.
pub open spec fn keys_unique(m: Seq<(Seq<char>, FlatModel)>) -> bool {
    forall|i: int, j: int| 0 <= i < j < m.len() ==> m[i].0 != m[j].0
}

pub proof fn lemma_key_index_from(m: Seq<(Seq<char>, FlatModel)>, k: Seq<char>, i: int)
    requires
        0 <= i,
    ensures
        key_index_from(m, k, i) == -1 || (i <= key_index_from(m, k, i) < m.len()
            && m[key_index_from(m, k, i)].0 == k),
        forall|j: int|
            i <= j < m.len() && (key_index_from(m, k, i) == -1 || j < key_index_from(m, k, i))
                ==> m[j].0 != k,
    decreases m.len() - i,
{
    if i < m.len() && m[i].0 != k {
        lemma_key_index_from(m, k, i + 1);
    }
}

/// Binding a key keeps keys unique.
pub proof fn lemma_put_keeps_unique(m: Seq<(Seq<char>, FlatModel)>, k: Seq<char>, v: FlatModel)
    requires
        keys_unique(m),
    ensures
        keys_unique(put(m, k, v)),
        lookup(put(m, k, v), k) == Some(v),
{
    lemma_key_index_from(m, k, 0);
    let r = put(m, k, v);
    lemma_key_index_from(r, k, 0);
    let i = if key_index(m, k) >= 0 { key_index(m, k) } else { m.len() as int };
    assert(r[i].0 == k);
    assert(key_index(r, k) == i);
}

/// A key just bound reads back the value bound to it.
pub proof fn lemma_lookup_put(m: Seq<(Seq<char>, FlatModel)>, k: Seq<char>, v: FlatModel)
    ensures
        lookup(put(m, k, v), k) == Some(v),
{
    lemma_key_index_from(m, k, 0);
    let r = put(m, k, v);
    lemma_key_index_from(r, k, 0);
    let i = if key_index(m, k) >= 0 { key_index(m, k) } else { m.len() as int };
    assert(r[i].0 == k);
    assert(key_index(r, k) == i);
}

/// Binding one key leaves the value of every other key as it was.
pub proof fn lemma_lookup_put_other(m: Seq<(Seq<char>, FlatModel)>, k: Seq<char>, v: FlatModel, q: Seq<char>)
    requires
        q != k,
    ensures
        lookup(put(m, k, v), q) == lookup(m, q),
{
    let r = put(m, k, v);
    lemma_key_index_from(m, k, 0);
    lemma_key_index_from(m, q, 0);
    lemma_key_index_from(r, q, 0);
    if key_index(m, q) >= 0 {
        let j = key_index(m, q);
        assert(r[j] == m[j]);
        assert(key_index(r, q) == j);
    } else {
        assert(key_index(r, q) == -1);
    }
}

impl FlatMap {
    /// An empty map.
    pub fn new() -> (r: FlatMap)
        ensures
            r@.len() == 0,
            keys_unique(r@),
    {
        let r = FlatMap { entries: Vec::new() };
        assert(r@ =~= Seq::<(Seq<char>, FlatModel)>::empty());
        r
    }

    /// The number of keys.
    pub fn len(&self) -> (r: usize)
        ensures
            r == self@.len(),
    {
        self.entries.len()
    }

    /// Whether the map has no key.
    pub fn is_empty(&self) -> (r: bool)
        ensures
            r == (self@.len() == 0),
    {
        self.entries.len() == 0
    }

    fn index_of(&self, key: &String) -> (r: Option<usize>)
        ensures
            r is Some <==> key_index(self@, key@) >= 0,
            r is Some ==> r->0 == key_index(self@, key@),
            r is Some ==> r->0 < self.entries@.len(),
    {
        proof {
            lemma_key_index_from(self@, key@, 0);
        }
        let mut i: usize = 0;
        while i < self.entries.len()
            invariant
                i <= self.entries@.len(),
                self@.len() == self.entries@.len(),
                forall|j: int| 0 <= j < i ==> self@[j].0 != key@,
                key_index(self@, key@) == -1 || i <= key_index(self@, key@),
            decreases self.entries@.len() - i,
        {
            proof {
                lemma_key_index_from(self@, key@, 0);
            }
            assert(self@[i as int].0 == self.entries@[i as int].0@);
            if self.entries[i].0 == *key {
                assert(self@[i as int].0 == key@);
                assert(key_index(self@, key@) == i);
                return Some(i);
            }
            i = i + 1;
        }
        None
    }

    /// Binds `key` to `value`, replacing an earlier binding in place.
    pub fn insert(&mut self, key: String, value: FlatValue)
        ensures
            final(self)@ == put(old(self)@, key@, value.view()),
            keys_unique(old(self)@) ==> keys_unique(final(self)@),
    {
        let ghost k = key@;
        let ghost v = value.view();
        proof {
            if keys_unique(old(self)@) {
                lemma_put_keeps_unique(old(self)@, k, v);
            }
        }
        match self.index_of(&key) {
            Some(i) => {
                self.entries.set(i, (key, value));
                assert(self@ =~= old(self)@.update(i as int, (k, v)));
            },
            None => {
                self.entries.push((key, value));
                assert(self@ =~= old(self)@.push((k, v)));
            },
        }
    }

    /// The value bound to `key`, if any.
    pub fn get(&self, key: &str) -> (r: Option<&FlatValue>)
        ensures
            r is Some <==> lookup(self@, key@) is Some,
            r is Some ==> r->0.view() == lookup(self@, key@)->0,
    {
        let k = key.to_owned();
        match self.index_of(&k) {
            Some(i) => {
                assert(self@[i as int].1 == self.entries@[i as int].1.view());
                Some(&self.entries[i].1)
            },
            None => None,
        }
    }

    /// Whether `key` is bound.
    pub fn contains_key(&self, key: &str) -> (r: bool)
        ensures
            r == (lookup(self@, key@) is Some),
    {
        let k = key.to_owned();
        self.index_of(&k).is_some()
    }
}

} // verus!
