//! A map as a list of pairs, for keys that are compared by what they stand for.

use vstd::prelude::*;

verus! {

/// A key of a `KeyedList`: two keys are the same where their views are.
pub trait Key: DeepView + Sized {
    /// Whether both stand for the same key.
    fn same(&self, other: &Self) -> (r: bool)
        ensures
            r == (self.deep_view() == other.deep_view()),
    ;
}

impl Key for String {
    fn same(&self, other: &Self) -> (r: bool) {
        *self == *other
    }
}

impl Key for Option<String> {
    fn same(&self, other: &Self) -> (r: bool) {
        match (self, other) {
            (Some(a), Some(b)) => *a == *b,
            (None, None) => true,
            _ => false,
        }
    }
}

/// Values under keys of which no two are the same, in the order in which the keys came.
#[derive(Debug)]
pub struct KeyedList<K, V> {
    keys: Vec<K>,
    values: Vec<V>,
}

impl<K: Key, V: DeepView> DeepView for KeyedList<K, V> {
    type V = Map<K::V, V::V>;

    closed spec fn deep_view(&self) -> Map<K::V, V::V> {
        Map::new(
            |key: K::V| self.keys.deep_view().contains(key),
            |key: K::V| self.values.deep_view()[self.keys.deep_view().index_of(key)],
        )
    }
}

impl<K: Key, V: DeepView> KeyedList<K, V> {
    /// One value for each key, and no key twice.
    pub closed spec fn wf(&self) -> bool {
        &&& self.keys@.len() == self.values@.len()
        &&& self.keys.deep_view().no_duplicates()
    }

    /// The position of `key`.
    fn position(&self, key: &K) -> (r: Option<usize>)
        requires
            self.wf(),
        ensures
            r is Some <==> self.deep_view().contains_key(key.deep_view()),
            r matches Some(i) ==> i < self.keys@.len() && self.keys.deep_view()[i as int]
                == key.deep_view() && self.deep_view()[key.deep_view()]
                == self.values.deep_view()[i as int],
    {
        for i in 0..self.keys.len()
            invariant
                self.wf(),
                forall|j: int| 0 <= j < i ==> #[trigger] self.keys.deep_view()[j] != key.deep_view(),
        {
            assert(self.keys.deep_view()[i as int] == self.keys@[i as int].deep_view());
            if self.keys[i].same(key) {
                assert(self.keys.deep_view().contains(key.deep_view()));
                return Some(i);
            }
        }
        None
    }

    /// A list without keys.
    pub fn new() -> (r: Self)
        ensures
            r.wf(),
            r.deep_view() == Map::<K::V, V::V>::empty(),
    {
        let r = KeyedList { keys: Vec::new(), values: Vec::new() };
        assert(r.deep_view() =~= Map::empty());
        r
    }

    /// The value under `key`.
    pub fn get(&self, key: &K) -> (r: Option<&V>)
        requires
            self.wf(),
        ensures
            r is Some <==> self.deep_view().contains_key(key.deep_view()),
            r matches Some(value) ==> value.deep_view() == self.deep_view()[key.deep_view()],
    {
        match self.position(key) {
            Some(i) => Some(&self.values[i]),
            None => None,
        }
    }

    /// The values, each as often as there are keys for it.
    pub fn values(&self) -> (r: &Vec<V>)
        requires
            self.wf(),
        ensures
            forall|value: V::V| #[trigger]
                r.deep_view().contains(value) <==> exists|key: K::V|
                    self.deep_view().contains_key(key) && #[trigger] self.deep_view()[key] == value,
    {
        proof {
            let keys = self.keys.deep_view();
            let values = self.values.deep_view();
            assert forall|value: V::V| #[trigger]
                values.contains(value) <==> exists|key: K::V|
                    self.deep_view().contains_key(key) && #[trigger] self.deep_view()[key]
                        == value by {
                if values.contains(value) {
                    let i = values.index_of(value);
                    assert(keys.contains(keys[i]));
                    assert(keys.index_of(keys[i]) == i);
                    assert(self.deep_view()[keys[i]] == value);
                }
                if exists|key: K::V|
                    self.deep_view().contains_key(key) && #[trigger] self.deep_view()[key]
                        == value {
                    let key = choose|key: K::V|
                        self.deep_view().contains_key(key) && #[trigger] self.deep_view()[key]
                            == value;
                    assert(values[keys.index_of(key)] == value);
                }
            }
        }
        &self.values
    }

    /// Takes `key` and its value out of the list, if it is there.
    pub fn remove(&mut self, key: &K)
        requires
            old(self).wf(),
        ensures
            final(self).wf(),
            final(self).deep_view() == old(self).deep_view().remove(key.deep_view()),
    {
        let ghost keys = self.keys.deep_view();
        let ghost values = self.values.deep_view();
        if let Some(i) = self.position(key) {
            self.keys.remove(i);
            self.values.remove(i);
            proof {
                assert(self.keys.deep_view() =~= keys.remove(i as int));
                assert(self.values.deep_view() =~= values.remove(i as int));
                lemma_removed(keys, values, i as int);
            }
        }
        assert(self.deep_view() =~= old(self).deep_view().remove(key.deep_view()));
    }

    /// Puts `value` under `key`, in place of an earlier value.
    pub fn insert(&mut self, key: K, value: V)
        requires
            old(self).wf(),
        ensures
            final(self).wf(),
            final(self).deep_view() == old(self).deep_view().insert(
                key.deep_view(),
                value.deep_view(),
            ),
    {
        self.remove(&key);
        let ghost keys = self.keys.deep_view();
        let ghost values = self.values.deep_view();
        let ghost before = self.deep_view();
        let ghost k = key.deep_view();
        let ghost v = value.deep_view();
        self.keys.push(key);
        self.values.push(value);
        proof {
            assert(!before.contains_key(k));
            assert(self.keys.deep_view() =~= keys.push(k));
            assert(self.values.deep_view() =~= values.push(v));
            lemma_pushed(keys, values, k, v);
            assert(keys.push(k).contains(k));
            assert(self.deep_view() =~= before.insert(k, v));
            assert(before.insert(k, v) =~= old(self).deep_view().insert(k, v));
        }
    }

    /// Empties the list and hands out its keys.
    pub fn take_keys(&mut self) -> (r: Vec<K>)
        requires
            old(self).wf(),
        ensures
            final(self).wf(),
            final(self).deep_view() == Map::<K::V, V::V>::empty(),
            r.deep_view().no_duplicates(),
            forall|key: K::V| #[trigger]
                r.deep_view().contains(key) <==> old(self).deep_view().contains_key(key),
    {
        let mut keys: Vec<K> = Vec::new();
        std::mem::swap(&mut keys, &mut self.keys);
        self.values = Vec::new();
        assert(self.deep_view() =~= Map::empty());
        keys
    }
}

/// What the lists of keys and values map, once the pair at `at` is gone.
proof fn lemma_removed<K, V>(keys: Seq<K>, values: Seq<V>, at: int)
    requires
        keys.no_duplicates(),
        keys.len() == values.len(),
        0 <= at < keys.len(),
    ensures
        keys.remove(at).no_duplicates(),
        forall|key: K| #[trigger]
            keys.remove(at).contains(key) <==> keys.contains(key) && key != keys[at],
        forall|key: K| #[trigger]
            keys.remove(at).contains(key) ==> values.remove(at)[keys.remove(at).index_of(key)]
                == values[keys.index_of(key)],
{
    let less = keys.remove(at);
    assert forall|i: int, j: int| 0 <= i < less.len() && 0 <= j < less.len() && i != j implies less[i]
        != less[j] by {
        let x = if i < at { i } else { i + 1 };
        let y = if j < at { j } else { j + 1 };
        assert(less[i] == keys[x] && less[j] == keys[y]);
    }
    assert forall|key: K| #[trigger] less.contains(key) <==> keys.contains(key) && key != keys[at] by {
        if less.contains(key) {
            let i = less.index_of(key);
            let x = if i < at { i } else { i + 1 };
            assert(keys[x] == key);
        }
        if keys.contains(key) && key != keys[at] {
            let x = keys.index_of(key);
            let i = if x < at { x } else { x - 1 };
            assert(less[i] == key);
        }
    }
    assert forall|key: K| #[trigger] less.contains(key) implies values.remove(at)[less.index_of(key)]
        == values[keys.index_of(key)] by {
        let i = less.index_of(key);
        let x = if i < at { i } else { i + 1 };
        assert(keys[x] == key);
        assert(keys.index_of(key) == x);
    }
}

/// What the lists of keys and values map, once a pair is put at their end.
proof fn lemma_pushed<K, V>(keys: Seq<K>, values: Seq<V>, key: K, value: V)
    requires
        keys.no_duplicates(),
        keys.len() == values.len(),
        !keys.contains(key),
    ensures
        keys.push(key).no_duplicates(),
        forall|k: K| #[trigger] keys.push(key).contains(k) <==> keys.contains(k) || k == key,
        values.push(value)[keys.push(key).index_of(key)] == value,
        forall|k: K| #[trigger]
            keys.contains(k) ==> values.push(value)[keys.push(key).index_of(k)]
                == values[keys.index_of(k)],
{
    let more = keys.push(key);
    assert(more.last() == key);
    assert forall|k: K| #[trigger] more.contains(k) <==> keys.contains(k) || k == key by {
        if keys.contains(k) {
            assert(more[keys.index_of(k)] == k);
        }
        if more.contains(k) && k != key {
            assert(keys[more.index_of(k)] == k);
        }
    }
    assert(more.contains(key));
    assert forall|k: K| #[trigger] keys.contains(k) implies values.push(value)[more.index_of(k)]
        == values[keys.index_of(k)] by {
        let i = more.index_of(k);
        assert(more.contains(k));
        assert(more[i] == k);
        assert(keys[i] == k);
    }
}

} // verus!
