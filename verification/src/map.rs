//! Maps from text to values, kept in the order of their keys.

use vstd::prelude::*;

use crate::text::{is_less, law_less_irreflexive, law_less_total, law_less_transitive, less, same};

verus! {

/// A map as the list of its entries. The entries stand in the ascending order
/// of their keys, and no key occurs twice: `insert` keeps both.
#[derive(Debug, PartialEq)]
pub struct StrMap<V> {
    pub entries: Vec<(String, V)>,
}

impl<V: DeepView> DeepView for StrMap<V> {
    type V = Seq<(Seq<char>, V::V)>;

    open spec fn deep_view(&self) -> Seq<(Seq<char>, V::V)> {
        self.entries.deep_view()
    }
}

/// The first position at or after `i` at which an entry with the key stands.
pub open spec fn key_from<W>(m: Seq<(Seq<char>, W)>, key: Seq<char>, i: int) -> Option<int>
    decreases m.len() - i,
{
    if i >= m.len() {
        None
    } else if m[i].0 == key {
        Some(i)
    } else {
        key_from(m, key, i + 1)
    }
}

/// The position of the entry with the key.
pub open spec fn key_at<W>(m: Seq<(Seq<char>, W)>, key: Seq<char>) -> Option<int> {
    key_from(m, key, 0)
}

/// The value that the map holds for the key.
pub open spec fn lookup<W>(m: Seq<(Seq<char>, W)>, key: Seq<char>) -> Option<W> {
    match key_at(m, key) {
        Some(i) => Some(m[i].1),
        None => None,
    }
}

/// The map has an entry with the key.
pub open spec fn has_key<W>(m: Seq<(Seq<char>, W)>, key: Seq<char>) -> bool {
    key_at(m, key) is Some
}

/// The first position at or after `i` whose key does not stand before `key`.
pub open spec fn place_from<W>(m: Seq<(Seq<char>, W)>, key: Seq<char>, i: int) -> int
    decreases m.len() - i,
{
    if i >= m.len() || m[i].0 == key || less(key, m[i].0) {
        i
    } else {
        place_from(m, key, i + 1)
    }
}

/// The map with the value set for the key.
pub open spec fn put<W>(m: Seq<(Seq<char>, W)>, key: Seq<char>, value: W) -> Seq<(Seq<char>, W)> {
    let i = place_from(m, key, 0);
    if i < m.len() && m[i].0 == key {
        m.update(i, (key, value))
    } else {
        m.insert(i, (key, value))
    }
}

/// The map with the value set for the key. An entry with that key keeps its place.
pub open spec fn put_at<W>(m: Seq<(Seq<char>, W)>, key: Seq<char>, value: W) -> Seq<(Seq<char>, W)> {
    match key_at(m, key) {
        Some(i) => m.update(i, (key, value)),
        None => put(m, key, value),
    }
}

/// The keys of the map, in its order.
pub open spec fn keys<W>(m: Seq<(Seq<char>, W)>) -> Seq<Seq<char>> {
    m.map_values(|e: (Seq<char>, W)| e.0)
}

/// The entries stand in the ascending order of their keys, none twice.
pub open spec fn ascending<W>(m: Seq<(Seq<char>, W)>) -> bool {
    forall|i: int, j: int| 0 <= i < j < m.len() ==> less(#[trigger] m[i].0, #[trigger] m[j].0)
}

proof fn lemma_key_from<W>(m: Seq<(Seq<char>, W)>, key: Seq<char>, i: int)
    requires
        0 <= i,
    ensures
        match key_from(m, key, i) {
            Some(k) => i <= k < m.len() && m[k].0 == key && forall|j: int|
                i <= j < k ==> (#[trigger] m[j]).0 != key,
            None => forall|j: int| i <= j < m.len() ==> (#[trigger] m[j]).0 != key,
        },
    decreases m.len() - i,
{
    if i < m.len() && m[i].0 != key {
        lemma_key_from(m, key, i + 1);
    }
}

/// `key_at` gives the first entry with the key, and none where there is none.
pub proof fn lemma_key_at<W>(m: Seq<(Seq<char>, W)>, key: Seq<char>)
    ensures
        match key_at(m, key) {
            Some(k) => 0 <= k < m.len() && m[k].0 == key && forall|j: int|
                0 <= j < k ==> (#[trigger] m[j]).0 != key,
            None => forall|j: int| 0 <= j < m.len() ==> (#[trigger] m[j]).0 != key,
        },
{
    lemma_key_from(m, key, 0);
}

/// `place_from` stays within the map, and what it passes neither is the key
/// nor stands behind it.
pub proof fn lemma_place_from<W>(m: Seq<(Seq<char>, W)>, key: Seq<char>, i: int)
    requires
        0 <= i <= m.len(),
    ensures
        i <= place_from(m, key, i) <= m.len(),
        forall|j: int|
            i <= j < place_from(m, key, i) ==> (#[trigger] m[j]).0 != key && !less(key, m[j].0),
        place_from(m, key, i) < m.len() ==> m[place_from(m, key, i)].0 == key || less(
            key,
            m[place_from(m, key, i)].0,
        ),
    decreases m.len() - i,
{
    if i < m.len() && m[i].0 != key && !less(key, m[i].0) {
        lemma_place_from(m, key, i + 1);
    }
}

/// A value that was put into a map is what the map holds for the key, and the
/// map holds what it held for every other key.
pub proof fn law_put_lookup<W>(m: Seq<(Seq<char>, W)>, key: Seq<char>, value: W, other: Seq<char>)
    requires
        ascending(m),
    ensures
        lookup(put(m, key, value), key) == Some(value),
        other != key ==> lookup(put(m, key, value), other) == lookup(m, other),
{
    let r = put(m, key, value);
    let i = place_from(m, key, 0);
    lemma_place_from(m, key, 0);
    lemma_key_at(m, key);
    lemma_key_at(r, key);
    lemma_key_at(m, other);
    lemma_key_at(r, other);
    assert(r[i] == (key, value));
    assert forall|j: int| i < j < r.len() implies r[j].0 != key by {
        law_put_ascending(m, key, value);
        law_less_irreflexive(key);
        assert(less(r[i].0, r[j].0));
    }
    law_put_ascending(m, key, value);
    if other != key {
        if let Some(k) = key_at(m, other) {
            let l = if i < m.len() && m[i].0 == key || k < i {
                k
            } else {
                k + 1
            };
            assert(r[l] == m[k]);
            lemma_one_place(r, l, key_at(r, other)->0);
        }
        if let Some(k) = key_at(r, other) {
            let l = if i < m.len() && m[i].0 == key || k < i {
                k
            } else {
                k - 1
            };
            assert(r[k] == m[l]);
        }
    }
}

/// A key has one place in a map.
pub proof fn lemma_one_place<W>(m: Seq<(Seq<char>, W)>, i: int, j: int)
    requires
        ascending(m),
        0 <= i < m.len(),
        0 <= j < m.len(),
        m[i].0 == m[j].0,
    ensures
        i == j,
{
    law_less_irreflexive(m[i].0);
    if i < j {
        assert(less(m[i].0, m[j].0));
    } else if j < i {
        assert(less(m[j].0, m[i].0));
    }
}

/// Putting a value into a map keeps the order of the keys, none twice.
pub proof fn law_put_ascending<W>(m: Seq<(Seq<char>, W)>, key: Seq<char>, value: W)
    requires
        ascending(m),
    ensures
        ascending(put(m, key, value)),
{
    let r = put(m, key, value);
    let i = place_from(m, key, 0);
    lemma_place_from(m, key, 0);
    if i < m.len() && m[i].0 == key {
        assert forall|a: int, b: int| 0 <= a < b < r.len() implies less(
            #[trigger] r[a].0,
            #[trigger] r[b].0,
        ) by {
            assert(less(m[a].0, m[b].0));
        }
    } else {
        assert forall|a: int, b: int| 0 <= a < b < r.len() implies less(
            #[trigger] r[a].0,
            #[trigger] r[b].0,
        ) by {
            if b < i {
                assert(less(m[a].0, m[b].0));
            } else if a > i {
                assert(less(m[a - 1].0, m[b - 1].0));
            } else if b == i {
                law_less_total(m[a].0, key);
            } else if a == i {
                if b - 1 != i {
                    assert(less(m[i].0, m[b - 1].0));
                    law_less_transitive(key, m[i].0, m[b - 1].0);
                }
            } else {
                assert(less(m[a].0, m[b - 1].0));
            }
        }
    }
}

/// In a map whose keys are in order, setting a value where it stands and
/// putting it into the map are the same, so that the keys stay in order.
pub proof fn law_put_at<W>(m: Seq<(Seq<char>, W)>, key: Seq<char>, value: W)
    requires
        ascending(m),
    ensures
        put_at(m, key, value) == put(m, key, value),
        ascending(put_at(m, key, value)),
{
    law_put_ascending(m, key, value);
    let i = place_from(m, key, 0);
    lemma_key_at(m, key);
    lemma_place_from(m, key, 0);
    if let Some(k) = key_at(m, key) {
        if i < k {
            assert(less(m[i].0, m[k].0));
            law_less_transitive(key, m[i].0, m[k].0);
        }
        law_less_irreflexive(key);
    }
}

/// The order of a map is that of its keys.
pub proof fn lemma_same_keys<W>(m: Seq<(Seq<char>, W)>)
    ensures
        forall|r: Seq<(Seq<char>, W)>|
            ascending(m) && r.len() == m.len() && (forall|i: int|
                0 <= i < m.len() ==> (#[trigger] r[i]).0 == m[i].0) ==> #[trigger] ascending(r),
{
    assert forall|r: Seq<(Seq<char>, W)>|
        ascending(m) && r.len() == m.len() && (forall|i: int|
            0 <= i < m.len() ==> (#[trigger] r[i]).0 == m[i].0) implies #[trigger] ascending(r) by {
        assert forall|i: int, j: int| 0 <= i < j < r.len() implies less(
            #[trigger] r[i].0,
            #[trigger] r[j].0,
        ) by {
            assert(less(m[i].0, m[j].0));
        }
    }
}

proof fn lemma_put_at_ascending<W>(m: Seq<(Seq<char>, W)>, key: Seq<char>)
    requires
        ascending(m),
    ensures
        forall|value: W| ascending(#[trigger] put_at(m, key, value)),
{
    assert forall|value: W| ascending(#[trigger] put_at(m, key, value)) by {
        law_put_at(m, key, value);
    }
}

/// A map has the key that was put into it, and every key that it had.
pub proof fn law_put_has_key<W>(m: Seq<(Seq<char>, W)>, key: Seq<char>, value: W, other: Seq<char>)
    ensures
        has_key(put(m, key, value), other) == (other == key || has_key(m, other)),
{
    let r = put(m, key, value);
    let i = place_from(m, key, 0);
    lemma_place_from(m, key, 0);
    lemma_key_at(m, other);
    lemma_key_at(r, other);
    assert(r[i].0 == key);
    if let Some(k) = key_at(m, other) {
        let l = if i < m.len() && m[i].0 == key || k < i {
            k
        } else {
            k + 1
        };
        assert(r[l].0 == m[k].0);
    }
    if let Some(k) = key_at(r, other) {
        if k != i {
            let l = if i < m.len() && m[i].0 == key || k < i {
                k
            } else {
                k - 1
            };
            assert(r[k].0 == m[l].0);
        }
    }
}

/// A map has the key whose value was set, and every key that it had.
pub proof fn law_put_at_has_key<W>(
    m: Seq<(Seq<char>, W)>,
    key: Seq<char>,
    value: W,
    other: Seq<char>,
)
    ensures
        has_key(put_at(m, key, value), other) == (other == key || has_key(m, other)),
{
    let r = put_at(m, key, value);
    lemma_key_at(m, key);
    match key_at(m, key) {
        Some(i) => {
            lemma_key_at(m, other);
            lemma_key_at(r, other);
            assert(r[i].0 == key);
            if let Some(k) = key_at(m, other) {
                assert(r[k].0 == other);
            }
            if let Some(k) = key_at(r, other) {
                assert(m[k].0 == other);
            }
        },
        None => {
            law_put_has_key(m, key, value, other);
        },
    }
}

impl<V: DeepView> StrMap<V> {
    /// The entries stand in the ascending order of their keys, none twice.
    pub open spec fn well_formed(&self) -> bool {
        ascending(self.deep_view())
    }

    /// A map without entries.
    pub fn new() -> (r: Self)
        ensures
            r.deep_view() == Seq::<(Seq<char>, V::V)>::empty(),
            r.well_formed(),
    {
        StrMap { entries: Vec::new() }
    }

    /// The position of the entry with the key.
    pub fn position(&self, key: &str) -> (r: Option<usize>)
        ensures
            match r {
                Some(i) => i < self.entries@.len() && key_at(self.deep_view(), key@) == Some(
                    i as int,
                ),
                None => key_at(self.deep_view(), key@) is None,
            },
    {
        let mut i: usize = 0;
        while i < self.entries.len()
            invariant
                i <= self.entries.len(),
                key_at(self.deep_view(), key@) == key_from(self.deep_view(), key@, i as int),
            decreases self.entries.len() - i,
        {
            if same(self.entries[i].0.as_str(), key) {
                return Some(i);
            }
            i = i + 1;
        }
        None
    }

    /// Whether the map has an entry with the key.
    pub fn contains_key(&self, key: &str) -> (r: bool)
        ensures
            r == has_key(self.deep_view(), key@),
    {
        match self.position(key) {
            Some(_) => true,
            None => false,
        }
    }

    /// The value that the map holds for the key.
    pub fn get(&self, key: &str) -> (r: Option<&V>)
        ensures
            match r {
                Some(v) => lookup(self.deep_view(), key@) == Some(v.deep_view()),
                None => lookup(self.deep_view(), key@) is None,
            },
    {
        match self.position(key) {
            Some(i) => Some(&self.entries[i].1),
            None => None,
        }
    }

    /// The place of the value that the map holds for the key.
    pub fn get_mut(&mut self, key: &str) -> (r: Option<&mut V>)
        ensures
            match key_at(old(self).deep_view(), key@) {
                Some(k) => match r {
                    Some(v) => (*v).deep_view() == old(self).deep_view()[k].1
                        && final(self).deep_view() =~= put_at(
                        old(self).deep_view(),
                        key@,
                        (*final(v)).deep_view(),
                    ),
                    None => false,
                },
                None => r is None && final(self).deep_view() == old(self).deep_view(),
            },
            old(self).well_formed() ==> final(self).well_formed(),
    {
        proof {
            lemma_key_at(self.deep_view(), key@);
        }
        match self.position(key) {
            Some(i) => Some(self.value_mut(i, key)),
            None => None,
        }
    }

    /// The place of the value at `i`, which has the key.
    fn value_mut(&mut self, i: usize, key: &str) -> (r: &mut V)
        requires
            key_at(old(self).deep_view(), key@) == Some(i as int),
            i < old(self).entries@.len(),
        ensures
            (*r).deep_view() == old(self).deep_view()[i as int].1,
            final(self).deep_view() =~= put_at(
                old(self).deep_view(),
                key@,
                (*final(r)).deep_view(),
            ),
            old(self).well_formed() ==> final(self).well_formed(),
    {
        proof {
            lemma_key_at(self.deep_view(), key@);
            lemma_same_keys(self.deep_view());
        }
        &mut self.entries[i].1
    }

    /// The place of the value that the map holds for the key. Where it holds
    /// none, it gets `default`.
    pub fn entry(&mut self, key: &str, default: V) -> (r: &mut V)
        ensures
            (*r).deep_view() == match lookup(old(self).deep_view(), key@) {
                Some(v) => v,
                None => default.deep_view(),
            },
            final(self).deep_view() =~= put_at(
                old(self).deep_view(),
                key@,
                (*final(r)).deep_view(),
            ),
            old(self).well_formed() ==> final(self).well_formed(),
    {
        let ghost m = self.deep_view();
        proof {
            lemma_key_at(m, key@);
            lemma_place_from(m, key@, 0);
            if ascending(m) {
                lemma_put_at_ascending(m, key@);
            }
        }
        let i: usize = match self.position(key) {
            Some(i) => i,
            None => {
                let i: usize = self.place(key);
                self.entries.insert(i, (key.to_owned(), default));
                assert(self.deep_view() =~= m.insert(i as int, (key@, default.deep_view())));
                i
            },
        };
        &mut self.entries[i].1
    }

    /// Sets the value for the key.
    pub fn insert(&mut self, key: String, value: V)
        ensures
            final(self).deep_view() == put(old(self).deep_view(), key@, value.deep_view()),
            old(self).well_formed() ==> final(self).well_formed(),
    {
        let ghost m = self.deep_view();
        let i: usize = self.place(key.as_str());
        if i < self.entries.len() && same(self.entries[i].0.as_str(), key.as_str()) {
            self.entries.set(i, (key, value));
        } else {
            self.entries.insert(i, (key, value));
        }
        assert(self.deep_view() =~= put(m, key@, value.deep_view()));
        proof {
            if ascending(m) {
                law_put_ascending(m, key@, value.deep_view());
            }
        }
    }

    /// The first position whose key does not stand before `key`.
    fn place(&self, key: &str) -> (r: usize)
        ensures
            r <= self.entries@.len(),
            r == place_from(self.deep_view(), key@, 0),
    {
        let ghost m = self.deep_view();
        let mut i: usize = 0;
        while i < self.entries.len() && !same(self.entries[i].0.as_str(), key) && !is_less(
            key,
            self.entries[i].0.as_str(),
        )
            invariant
                m == self.deep_view(),
                i <= self.entries.len(),
                place_from(m, key@, 0) == place_from(m, key@, i as int),
            ensures
                i <= self.entries.len(),
                place_from(m, key@, 0) == i,
            decreases self.entries.len() - i,
        {
            i = i + 1;
        }
        i
    }
}

} // verus!
