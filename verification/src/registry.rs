//! The store's keyed collections: records under identifiers, found through a
//! concurrent hash map and kept in the order in which the identifiers first came.

use crate::keyed::{is_snapshot, lemma_map_of_at, lemma_map_of_snapshot, Keyed};
use crate::record::{ids, views, Entry, Record};
use dashmap::DashMap;
use vstd::prelude::*;

verus! {

/// `dashmap::DashMap`, of which the verifier sees nothing but the type.
#[verifier::external_type_specification]
#[verifier::external_body]
#[verifier::reject_recursive_types(K)]
#[verifier::reject_recursive_types(V)]
#[verifier::reject_recursive_types(S)]
pub struct ExDashMap<K, V, S>(DashMap<K, V, S>);

/// What an index holds: the position entered under each identifier.
pub uninterp spec fn slots(index: DashMap<String, usize>) -> Map<Seq<char>, usize>;

/// `DashMap::new`: a map that holds nothing.
#[verifier::external_body]
fn index_new() -> (out: DashMap<String, usize>)
    ensures
        slots(out) == (Map::<Seq<char>, usize>::empty()),
{
    DashMap::new()
}

/// `DashMap::get`: the position entered under `name`, or `None` where the
/// map has no such key. The map is left as it was.
#[verifier::external_body]
fn index_get(index: &DashMap<String, usize>, name: &str) -> (at: Option<usize>)
    ensures
        at == if slots(*index).dom().contains(name@) {
            Some(slots(*index)[name@])
        } else {
            None
        },
{
    index.get(name).map(|entry| *entry.value())
}

/// `DashMap::insert`: afterwards `name` leads to `at`, and every other key
/// leads where it led before. No reference into the map is alive during the
/// call, so it cannot block.
#[verifier::external_body]
fn index_insert(index: &mut DashMap<String, usize>, name: String, at: usize)
    ensures
        slots(*final(index)) == slots(*old(index)).insert(name@, at),
{
    index.insert(name, at);
}

/// Records under identifiers. An identifier is looked up in the index, which
/// gives the position of its record.
pub struct Registry<V> {
    index: DashMap<String, usize>,
    entries: Keyed<V>,
}

impl<V: Record> View for Registry<V> {
    type V = Map<Seq<char>, V::V>;

    /// The map from each identifier to the view of its record.
    open spec fn view(&self) -> Map<Seq<char>, V::V> {
        self.entries()@
    }
}

impl<V: Record> Registry<V> {
    /// The records with their identifiers, in the order of first insertion.
    pub closed spec fn entries(&self) -> Keyed<V> {
        self.entries
    }

    /// The entries are sound, and the index leads to each of them and to nothing else.
    pub closed spec fn wf(&self) -> bool {
        &&& self.entries.wf()
        &&& forall|name: Seq<char>|
            slots(self.index).dom().contains(name) <==> self.entries.keys().contains(name)
        &&& forall|i: int|
            0 <= i < self.entries.keys().len() ==> slots(
                self.index,
            )[#[trigger] self.entries.keys()[i]] == i
    }

    /// A well-formed registry has sound entries.
    pub proof fn lemma_entries_wf(&self)
        requires
            self.wf(),
        ensures
            self.entries().wf(),
    {
    }

    /// An empty registry.
    pub fn new() -> (out: Self)
        ensures
            out.wf(),
            out.entries().keys() == Seq::<Seq<char>>::empty(),
            out@ == Map::<Seq<char>, V::V>::empty(),
    {
        Registry { index: index_new(), entries: Keyed::new() }
    }

    /// The position of `name`, if it is present.
    pub fn find(&self, name: &str) -> (at: Option<usize>)
        requires
            self.wf(),
        ensures
            match at {
                Some(i) => i < self.entries().keys().len() && self.entries().keys()[i as int]
                    == name@ && self@.dom().contains(name@) && self@[name@]
                    == self.entries().values()[i as int]@,
                None => !self.entries().keys().contains(name@) && !self@.dom().contains(name@),
            },
    {
        let at = index_get(&self.index, name);
        proof {
            if let Some(i) = at {
                let j = self.entries.keys().index_of(name@);
                assert(self.entries.keys()[j] == name@);
                lemma_map_of_at(self.entries.keys(), self.entries.values(), j);
            }
        }
        at
    }

    /// The number of identifiers.
    pub fn len(&self) -> (n: usize)
        requires
            self.wf(),
        ensures
            n == self.entries().keys().len(),
            n == self@.dom().len(),
    {
        self.entries.len()
    }

    /// The identifier at position `i`.
    pub fn key_at(&self, i: usize) -> (name: &String)
        requires
            self.wf(),
            i < self.entries().keys().len(),
        ensures
            name@ == self.entries().keys()[i as int],
            self@.dom().contains(name@),
    {
        proof {
            lemma_map_of_at(self.entries.keys(), self.entries.values(), i as int);
        }
        self.entries.key_at(i)
    }

    /// The record at position `i`.
    pub fn value_at(&self, i: usize) -> (record: &V)
        requires
            self.wf(),
            i < self.entries().keys().len(),
        ensures
            *record == self.entries().values()[i as int],
            record.wf(),
            record@ == self@[self.entries().keys()[i as int]],
    {
        proof {
            lemma_map_of_at(self.entries.keys(), self.entries.values(), i as int);
        }
        self.entries.value_at(i)
    }

    /// Adds `record` under an identifier that is not yet present, and says where it stands.
    pub fn add(&mut self, name: &str, record: V) -> (at: usize)
        requires
            old(self).wf(),
            record.wf(),
            !old(self)@.dom().contains(name@),
        ensures
            final(self).wf(),
            at == old(self).entries().keys().len(),
            final(self).entries().keys() == old(self).entries().keys().push(name@),
            final(self).entries().values() == old(self).entries().values().push(record),
            final(self)@ == old(self)@.insert(name@, record@),
    {
        let at = self.entries.push(name.to_owned(), record);
        index_insert(&mut self.index, name.to_owned(), at);
        proof {
            let keys = self.entries.keys();
            assert forall|other: Seq<char>| slots(self.index).dom().contains(other)
                <==> keys.contains(other) by {
                if old(self).entries.keys().contains(other) {
                    let j = old(self).entries.keys().index_of(other);
                    assert(keys[j] == other);
                }
                if keys.contains(other) && other != name@ {
                    let j = keys.index_of(other);
                    assert(old(self).entries.keys()[j] == other);
                }
                assert(keys[at as int] == name@);
            }
            assert forall|i: int| 0 <= i < keys.len() implies slots(self.index)[#[trigger] keys[i]]
                == i by {
                if i < at {
                    assert(old(self).entries.keys()[i] == keys[i]);
                    assert(old(self).entries.keys().contains(keys[i]));
                }
            }
        }
        at
    }

    /// The record at position `i`, to be changed in place. The registry stays
    /// sound if the record does.
    pub fn value_mut(&mut self, i: usize) -> (record: &mut V)
        requires
            old(self).wf(),
            i < old(self).entries().keys().len(),
        ensures
            *record == old(self).entries().values()[i as int],
            record.wf(),
            record@ == old(self)@[old(self).entries().keys()[i as int]],
            final(self).entries().keys() == old(self).entries().keys(),
            final(self).entries().values() == old(self).entries().values().update(
                i as int,
                *final(record),
            ),
            final(record).wf() ==> final(self).wf(),
            final(self)@ == old(self)@.insert(
                old(self).entries().keys()[i as int],
                final(record)@,
            ),
    {
        self.entries.value_mut(i)
    }

    /// Puts `record` in the place of the one at position `i`.
    pub fn replace(&mut self, i: usize, record: V)
        requires
            old(self).wf(),
            record.wf(),
            i < old(self).entries().keys().len(),
        ensures
            final(self).wf(),
            final(self).entries().keys() == old(self).entries().keys(),
            final(self).entries().values() == old(self).entries().values().update(i as int, record),
            final(self)@ == old(self)@.insert(old(self).entries().keys()[i as int], record@),
    {
        self.entries.replace(i, record);
    }
}

/// Every record of `registry` under its identifier, each once, as a copy.
pub fn snapshot<T: Entry>(registry: &Registry<T::Held>) -> (out: Vec<T>)
    requires
        registry.wf(),
    ensures
        is_snapshot(ids(out@), views(out@), registry@),
        forall|i: int| 0 <= i < out@.len() ==> (#[trigger] out@[i]).held().wf(),
{
    let ghost keys = registry.entries().keys();
    let ghost values = registry.entries().values();
    let n = registry.len();
    let mut out: Vec<T> = Vec::new();
    let mut i: usize = 0;
    while i < n
        invariant
            registry.wf(),
            keys == registry.entries().keys(),
            values == registry.entries().values(),
            n == keys.len(),
            i <= n,
            out@.len() == i,
            forall|j: int|
                0 <= j < i ==> (#[trigger] out@[j]).id() == keys[j] && out@[j].held()@
                    == values[j]@ && out@[j].held().wf(),
        decreases n - i,
    {
        let id = registry.key_at(i).clone();
        let held = registry.value_at(i).duplicate();
        out.push(T::entry(id, held));
        i = i + 1;
    }
    proof {
        registry.lemma_entries_wf();
        assert(ids(out@) =~= keys);
        lemma_map_of_snapshot(keys, values, views(out@));
    }
    out
}

} // verus!
