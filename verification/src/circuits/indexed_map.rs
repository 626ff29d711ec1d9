//! A vector of items together with an index from each item to its position.

use vstd::prelude::*;

verus! {

/// A key whose equality and copies have a known meaning: both go by the view.
pub trait IndexKey: View + Sized {
    /// Tells whether two keys are the same.
    fn same_key(&self, other: &Self) -> (res: bool)
        ensures
            res == (self@ == other@),
    ;

    /// Makes a copy of the key.
    fn duplicate(&self) -> (res: Self)
        ensures
            res@ == self@,
    ;
}

impl IndexKey for String {
    fn same_key(&self, other: &Self) -> (res: bool) {
        *self == *other
    }

    fn duplicate(&self) -> (res: Self) {
        self.clone()
    }
}

/// The position that the index gives an item: its last occurrence, as in a
/// map filled by inserting the items in order, each with its position.
pub open spec fn last_index_of<K>(items: Seq<K>, key: K) -> Option<nat>
    decreases items.len(),
{
    if items.len() == 0 {
        None
    } else if items.last() == key {
        Some((items.len() - 1) as nat)
    } else {
        last_index_of(items.drop_last(), key)
    }
}

/// The items after adding `key`: appended only where it is not there yet.
pub open spec fn with_item<K>(items: Seq<K>, key: K) -> Seq<K> {
    if items.contains(key) {
        items
    } else {
        items.push(key)
    }
}

/// An optional position, as a natural number.
pub open spec fn position_of(index: Option<usize>) -> Option<nat> {
    match index {
        Some(i) => Some(i as nat),
        None => None,
    }
}

/// Views of a sequence of keys.
pub open spec fn key_views<T: View>(items: Seq<T>) -> Seq<T::V> {
    items.map_values(|t: T| t@)
}

/// Where `key` occurs in `items`, `last_index_of` finds a position.
pub proof fn lemma_last_index_of_found<K>(items: Seq<K>, key: K)
    ensures
        items.contains(key) <==> last_index_of(items, key) is Some,
        last_index_of(items, key) matches Some(i) ==> i < items.len() && items[i as int] == key,
        last_index_of(items, key) matches Some(i) ==> forall|j: int|
            i < j < items.len() ==> items[j] != key,
    decreases items.len(),
{
    if items.len() > 0 {
        lemma_last_index_of_found(items.drop_last(), key);
        if items.last() != key {
            if let Some(i) = last_index_of(items, key) {
                assert forall|j: int| i < j < items.len() implies items[j] != key by {
                    if j < items.len() - 1 {
                        assert(items.drop_last()[j] == items[j]);
                    }
                }
            }
            if items.contains(key) {
                let j = choose|j: int| 0 <= j < items.len() && items[j] == key;
                assert(items.drop_last()[j] == key);
            }
            if items.drop_last().contains(key) {
                let j = choose|j: int| 0 <= j < items.drop_last().len() && items.drop_last()[j] == key;
                assert(items[j] == key);
            }
        }
    }
}

/// A vector of items and the position of each item in it.
#[derive(Debug, Clone)]
pub struct IndexedMap<T> {
    vector: Vec<T>,
}

impl<T: View> View for IndexedMap<T> {
    type V = Seq<T::V>;

    closed spec fn view(&self) -> Seq<T::V> {
        key_views(self.vector@)
    }
}

impl<T: IndexKey> IndexedMap<T> {
    /// An empty map.
    pub fn new() -> (res: Self)
        ensures
            res@ == Seq::<T::V>::empty(),
    {
        let res = IndexedMap { vector: Vec::new() };
        assert(res@ =~= Seq::<T::V>::empty());
        res
    }

    /// A map over the items of `vec`, in their order; an item that occurs
    /// more than once is indexed at its last occurrence.
    pub fn from_vector(vec: Vec<T>) -> (res: Self)
        ensures
            res@ == key_views(vec@),
    {
        IndexedMap { vector: vec }
    }

    /// Appends `item` unless it is there already.
    pub fn add(&mut self, item: T)
        ensures
            final(self)@ == with_item(old(self)@, item@),
    {
        match self.get_index(&item) {
            Some(_) => {
                proof {
                    lemma_last_index_of_found(old(self)@, item@);
                }
            },
            None => {
                proof {
                    lemma_last_index_of_found(old(self)@, item@);
                }
                self.vector.push(item);
                assert(self@ =~= old(self)@.push(item@));
            },
        }
    }

    /// The position of `item`, if it is present.
    pub fn get_index(&self, item: &T) -> (res: Option<usize>)
        ensures
            position_of(res) == last_index_of(self@, item@),
    {
        let mut i = self.vector.len();
        assert(self@.take(i as int) =~= self@);
        while i > 0
            invariant
                i <= self.vector.len(),
                last_index_of(self@, item@) == last_index_of(self@.take(i as int), item@),
            decreases i,
        {
            let ghost prefix = self@.take(i as int);
            assert(prefix.drop_last() =~= self@.take(i - 1));
            if self.vector[i - 1].same_key(item) {
                return Some(i - 1);
            }
            i = i - 1;
        }
        None
    }

    /// The item at `index`, if there is one.
    pub fn get_item(&self, index: usize) -> (res: Option<&T>)
        ensures
            match res {
                Some(t) => index < self@.len() && t@ == self@[index as int],
                None => index >= self@.len(),
            },
    {
        if index < self.vector.len() {
            Some(&self.vector[index])
        } else {
            None
        }
    }

    /// The items, in order.
    pub fn into_vector(self) -> (res: Vec<T>)
        ensures
            key_views(res@) == self@,
    {
        self.vector
    }

    /// The number of items.
    pub fn len(&self) -> (res: usize)
        ensures
            res == self@.len(),
    {
        self.vector.len()
    }
}


/// Adding an item makes it findable at its position, and adding it a
/// second time changes nothing.
pub proof fn lemma_add_then_find<K>(items: Seq<K>, key: K)
    ensures
        last_index_of(with_item(items, key), key) matches Some(i) && with_item(items, key)[i as int]
            == key,
        with_item(with_item(items, key), key) == with_item(items, key),
        with_item(items, key).len() == items.len() + if items.contains(key) {
            0int
        } else {
            1int
        },
{
    let added = with_item(items, key);
    if !items.contains(key) {
        assert(added[items.len() as int] == key);
    }
    lemma_last_index_of_found(added, key);
}

/// The items after adding each of `keys` in turn to `items`.
pub open spec fn with_items<K>(items: Seq<K>, keys: Seq<K>) -> Seq<K>
    decreases keys.len(),
{
    if keys.len() == 0 {
        items
    } else {
        with_item(with_items(items, keys.drop_last()), keys.last())
    }
}

/// Of two items, the first occurs in `keys` before any occurrence of the
/// second.
pub open spec fn first_occurs_before<K>(keys: Seq<K>, a: K, b: K) -> bool {
    exists|p: int| 0 <= p < keys.len() && #[trigger] keys[p] == a && !keys.take(p).contains(b)
}

/// Adding keys one by one to an empty map keeps every distinct key once,
/// in the order of first occurrence: no key twice, exactly the keys added,
/// as many items as distinct keys, and of two items the earlier one occurs
/// in `keys` before any occurrence of the later one.
pub proof fn lemma_adds_keep_first_occurrences<K>(keys: Seq<K>)
    ensures
        with_items(Seq::empty(), keys).no_duplicates(),
        forall|k: K| #[trigger] with_items(Seq::empty(), keys).contains(k) <==> keys.contains(k),
        with_items(Seq::empty(), keys).len() == keys.to_set().len(),
        forall|i: int, j: int|
            0 <= i < j < with_items(Seq::empty(), keys).len() ==> first_occurs_before(
                keys,
                #[trigger] with_items(Seq::empty(), keys)[i],
                #[trigger] with_items(Seq::empty(), keys)[j],
            ),
    decreases keys.len(),
{
    let d = with_items(Seq::<K>::empty(), keys);
    if keys.len() == 0 {
        assert(d =~= Seq::<K>::empty());
        assert(keys.to_set() =~= Set::<K>::empty());
    } else {
        let rest = keys.drop_last();
        let x = keys.last();
        let e = with_items(Seq::<K>::empty(), rest);
        lemma_adds_keep_first_occurrences(rest);
        assert forall|k: K| #[trigger] d.contains(k) <==> keys.contains(k) by {
            if keys.contains(k) && k != x {
                let p = choose|p: int| 0 <= p < keys.len() && keys[p] == k;
                assert(rest[p] == k);
            }
            if rest.contains(k) {
                let p = choose|p: int| 0 <= p < rest.len() && rest[p] == k;
                assert(keys[p] == k);
            }
            if d.contains(k) && !e.contains(k) {
                assert(d == e.push(x));
                let p = choose|p: int| 0 <= p < d.len() && d[p] == k;
                assert(p == e.len());
            }
            if e.contains(k) && !e.contains(x) {
                let p = choose|p: int| 0 <= p < e.len() && e[p] == k;
                assert(d[p] == k);
            }
            if !e.contains(x) {
                assert(d[e.len() as int] == x);
            }
        }
        assert forall|i: int, j: int| 0 <= i < j < d.len() implies first_occurs_before(keys, #[trigger] d[i], #[trigger] d[j]) by {
            if j < e.len() {
                assert(first_occurs_before(rest, e[i], e[j]));
                let p = choose|p: int| 0 <= p < rest.len() && #[trigger] rest[p] == e[i] && !rest.take(p).contains(e[j]);
                assert(rest.take(p) =~= keys.take(p));
                assert(keys[p] == d[i]);
            } else {
                assert(!e.contains(x));
                assert(!rest.contains(x));
                assert(e.contains(e[i]));
                let p = choose|p: int| 0 <= p < rest.len() && #[trigger] rest[p] == e[i];
                assert(keys[p] == d[i]);
                if keys.take(p).contains(x) {
                    let q = choose|q: int| 0 <= q < keys.take(p).len() && keys.take(p)[q] == x;
                    assert(rest[q] == x);
                }
            }
        }
        if !e.contains(x) {
            assert forall|i: int, j: int| 0 <= i < d.len() && 0 <= j < d.len() && i != j implies d[i] != d[j] by {
                if j == e.len() {
                    assert(e.contains(e[i]));
                }
                if i == e.len() {
                    assert(e.contains(e[j]));
                }
            }
        }
        assert(d.to_set() =~= keys.to_set());
        d.unique_seq_to_set();
    }
}

} // verus!
