//! A witness: the value of each variable of a circuit, by name.

use vstd::prelude::*;

verus! {

/// The map that a list of entries describes: a later entry for a name
/// replaces a preceding one.
pub open spec fn entries_map(entries: Seq<(String, i64)>) -> Map<Seq<char>, i64>
    decreases entries.len(),
{
    if entries.len() == 0 {
        Map::empty()
    } else {
        entries_map(entries.drop_last()).insert(entries.last().0@, entries.last().1)
    }
}

/// No name occurs in two entries.
pub open spec fn distinct_names(entries: Seq<(String, i64)>) -> bool {
    forall|i: int, j: int|
        0 <= i < entries.len() && 0 <= j < entries.len() && i != j ==> entries[i].0@ != entries[j].0@
}

/// A name is in the map exactly where some entry has it, and with distinct
/// names the map gives each entry's value.
proof fn lemma_entries_map(entries: Seq<(String, i64)>)
    ensures
        forall|k: Seq<char>|
            entries_map(entries).contains_key(k) <==> exists|i: int|
                0 <= i < entries.len() && #[trigger] entries[i].0@ == k,
        distinct_names(entries) ==> forall|i: int|
            0 <= i < entries.len() ==> entries_map(entries)[#[trigger] entries[i].0@] == entries[i].1,
    decreases entries.len(),
{
    if entries.len() > 0 {
        let prefix = entries.drop_last();
        lemma_entries_map(prefix);
        assert forall|k: Seq<char>|
            entries_map(entries).contains_key(k) <==> exists|i: int|
                0 <= i < entries.len() && #[trigger] entries[i].0@ == k by {
            if entries_map(entries).contains_key(k) && k != entries.last().0@ {
                assert(entries_map(prefix).contains_key(k));
                let i = choose|i: int| 0 <= i < prefix.len() && #[trigger] prefix[i].0@ == k;
                assert(entries[i].0@ == k);
            }
            if k == entries.last().0@ {
                assert(entries[entries.len() - 1].0@ == k);
            }
            if exists|i: int| 0 <= i < entries.len() && #[trigger] entries[i].0@ == k {
                let i = choose|i: int| 0 <= i < entries.len() && #[trigger] entries[i].0@ == k;
                if i < entries.len() - 1 {
                    assert(prefix[i].0@ == k);
                    assert(entries_map(prefix).contains_key(k));
                }
            }
        }
        if distinct_names(entries) {
            assert(distinct_names(prefix));
            assert forall|i: int| 0 <= i < entries.len() implies entries_map(entries)[#[trigger] entries[i].0@]
                == entries[i].1 by {
                if i < entries.len() - 1 {
                    assert(prefix[i] == entries[i]);
                }
            }
        }
    }
}

/// Replacing the value of an entry, names distinct, replaces it in the map.
proof fn lemma_entries_map_update(entries: Seq<(String, i64)>, i: int, name: String, value: i64)
    requires
        distinct_names(entries),
        0 <= i < entries.len(),
        name@ == entries[i].0@,
    ensures
        entries_map(entries.update(i, (name, value))) == entries_map(entries).insert(name@, value),
    decreases entries.len(),
{
    let updated = entries.update(i, (name, value));
    if i == entries.len() - 1 {
        assert(updated.drop_last() =~= entries.drop_last());
        lemma_entries_map(entries.drop_last());
        assert(!entries_map(entries.drop_last()).contains_key(name@)) by {
            if entries_map(entries.drop_last()).contains_key(name@) {
                let j = choose|j: int| 0 <= j < entries.drop_last().len() && #[trigger] entries.drop_last()[j].0@ == name@;
                assert(entries[j].0@ == entries[i].0@);
            }
        }
        assert(entries_map(updated) =~= entries_map(entries).insert(name@, value));
    } else {
        assert(updated.drop_last() =~= entries.drop_last().update(i, (name, value)));
        lemma_entries_map_update(entries.drop_last(), i, name, value);
        assert(entries.last().0@ != name@);
        assert(entries_map(updated) =~= entries_map(entries).insert(name@, value));
    }
}

/// Values of variables, by name.
#[derive(Debug)]
pub struct Witness {
    entries: Vec<(String, i64)>,
}

impl View for Witness {
    type V = Map<Seq<char>, i64>;

    closed spec fn view(&self) -> Map<Seq<char>, i64> {
        entries_map(self.entries@)
    }
}

impl Witness {
    #[verifier::type_invariant]
    spec fn names_distinct(self) -> bool {
        distinct_names(self.entries@)
    }

    /// A witness with no values.
    pub fn new() -> (res: Self)
        ensures
            res@ == Map::<Seq<char>, i64>::empty(),
    {
        Witness { entries: Vec::new() }
    }

    /// The position of the entry for `name`, if any.
    fn find(&self, name: &String) -> (res: Option<usize>)
        ensures
            match res {
                Some(i) => i < self.entries@.len() && self.entries@[i as int].0@ == name@,
                None => forall|j: int| 0 <= j < self.entries@.len() ==> self.entries@[j].0@ != name@,
            },
    {
        let mut i: usize = 0;
        while i < self.entries.len()
            invariant
                i <= self.entries@.len(),
                forall|j: int| 0 <= j < i ==> self.entries@[j].0@ != name@,
            decreases self.entries@.len() - i,
        {
            if self.entries[i].0 == *name {
                return Some(i);
            }
            i = i + 1;
        }
        None
    }

    /// Sets the value of `name`.
    pub fn insert(&mut self, name: String, value: i64)
        ensures
            final(self)@ == old(self)@.insert(name@, value),
    {
        proof {
            use_type_invariant(&*self);
            lemma_entries_map(self.entries@);
        }
        match self.find(&name) {
            Some(i) => {
                proof {
                    lemma_entries_map_update(self.entries@, i as int, name, value);
                }
                let mut entries = Vec::new();
                std::mem::swap(&mut entries, &mut self.entries);
                entries.set(i, (name, value));
                self.entries = entries;
            },
            None => {
                let ghost before = self.entries@;
                let mut entries = Vec::new();
                std::mem::swap(&mut entries, &mut self.entries);
                entries.push((name, value));
                assert(entries@.drop_last() =~= before);
                self.entries = entries;
            },
        }
    }

    /// The value of `name`, if it has one.
    pub fn get(&self, name: &String) -> (res: Option<i64>)
        ensures
            res == if self@.contains_key(name@) {
                Some(self@[name@])
            } else {
                None::<i64>
            },
    {
        proof {
            use_type_invariant(self);
            lemma_entries_map(self.entries@);
        }
        match self.find(name) {
            Some(i) => Some(self.entries[i].1),
            None => None,
        }
    }

    /// The entries, one per name.
    pub fn entries(&self) -> (res: &Vec<(String, i64)>)
        ensures
            entries_map(res@) == self@,
            distinct_names(res@),
    {
        proof {
            use_type_invariant(self);
        }
        &self.entries
    }
}


/// Reading a name gives back the value last inserted for it, and inserting
/// under one name leaves every other name's value as it was.
pub proof fn lemma_insert_then_get(w: Map<Seq<char>, i64>, name: Seq<char>, value: i64, other: Seq<char>)
    requires
        other != name,
    ensures
        w.insert(name, value).contains_key(name),
        w.insert(name, value)[name] == value,
        w.insert(name, value).contains_key(other) == w.contains_key(other),
        w.contains_key(other) ==> w.insert(name, value)[other] == w[other],
{
}

} // verus!
