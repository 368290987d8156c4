//! A small map from names to records that remembers the order of first insertion.

use crate::record::Record;
use vstd::prelude::*;

verus! {

/// The map that pairs each name of `keys` with the view of the record at the
/// same position of `values`.
pub open spec fn map_of<V: Record>(keys: Seq<Seq<char>>, values: Seq<V>) -> Map<Seq<char>, V::V> {
    Map::new(|name: Seq<char>| keys.contains(name), |name: Seq<char>| values[keys.index_of(name)]@)
}

/// Whether `keys` and `values` pair up: equally long, and no name twice.
pub open spec fn paired<V>(keys: Seq<Seq<char>>, values: Seq<V>) -> bool {
    keys.len() == values.len() && keys.no_duplicates()
}

/// Each position of a pairing is found again under its name.
pub proof fn lemma_map_of_at<V: Record>(keys: Seq<Seq<char>>, values: Seq<V>, i: int)
    requires
        paired(keys, values),
        0 <= i < keys.len(),
    ensures
        keys.contains(keys[i]),
        keys.index_of(keys[i]) == i,
        map_of(keys, values).dom().contains(keys[i]),
        map_of(keys, values)[keys[i]] == values[i]@,
{
}

/// A pairing has as many entries as names, and finitely many.
pub proof fn lemma_map_of_len<V: Record>(keys: Seq<Seq<char>>, values: Seq<V>)
    requires
        paired(keys, values),
    ensures
        map_of(keys, values).dom().finite(),
        map_of(keys, values).dom().len() == keys.len(),
{
    assert(map_of(keys, values).dom() =~= keys.to_set());
    vstd::seq_lib::seq_to_set_is_finite(keys);
    keys.unique_seq_to_set();
}

/// Replacing the record at one position replaces the entry under its name.
pub proof fn lemma_map_of_update<V: Record>(
    keys: Seq<Seq<char>>,
    values: Seq<V>,
    i: int,
    record: V,
)
    requires
        paired(keys, values),
        0 <= i < keys.len(),
    ensures
        map_of(keys, values.update(i, record)) == map_of(keys, values).insert(keys[i], record@),
{
    let before = map_of(keys, values);
    let after = map_of(keys, values.update(i, record));
    assert forall|name: Seq<char>| after.dom().contains(name) implies #[trigger] after[name]
        == before.insert(keys[i], record@)[name] by {
        let j = keys.index_of(name);
        assert(keys[j] == name);
    }
    assert(after =~= before.insert(keys[i], record@));
}

/// Adding a new name with its record at the end adds one entry.
pub proof fn lemma_map_of_push<V: Record>(
    keys: Seq<Seq<char>>,
    values: Seq<V>,
    name: Seq<char>,
    record: V,
)
    requires
        paired(keys, values),
        !keys.contains(name),
    ensures
        paired(keys.push(name), values.push(record)),
        map_of(keys.push(name), values.push(record)) == map_of(keys, values).insert(name, record@),
{
    let grown = keys.push(name);
    let before = map_of(keys, values);
    let after = map_of(grown, values.push(record));
    assert forall|i: int, j: int|
        0 <= i < grown.len() && 0 <= j < grown.len() && i != j implies grown[i] != grown[j] by {
        if i < keys.len() {
            assert(keys.contains(keys[i]));
        }
        if j < keys.len() {
            assert(keys.contains(keys[j]));
        }
    }
    assert(grown[keys.len() as int] == name);
    assert forall|other: Seq<char>| after.dom().contains(other) <==> before.insert(
        name,
        record@,
    ).dom().contains(other) by {
        if keys.contains(other) {
            let j = keys.index_of(other);
            assert(grown[j] == other);
        }
        if grown.contains(other) && other != name {
            let j = grown.index_of(other);
            assert(keys[j] == other);
        }
    }
    assert forall|other: Seq<char>| after.dom().contains(other) implies #[trigger] after[other]
        == before.insert(name, record@)[other] by {
        let j = grown.index_of(other);
        assert(grown[j] == other);
        if other != name {
            assert(keys[j] == other);
            let k = keys.index_of(other);
            assert(keys[k] == other);
        }
    }
    assert(after =~= before.insert(name, record@));
}

/// Records with the same views under the same names make the same map.
pub proof fn lemma_map_of_same_views<V: Record>(keys: Seq<Seq<char>>, a: Seq<V>, b: Seq<V>)
    requires
        a.len() == b.len(),
        keys.len() == a.len(),
        forall|i: int| 0 <= i < a.len() ==> (#[trigger] a[i])@ == b[i]@,
    ensures
        map_of(keys, a) == map_of(keys, b),
{
    assert forall|name: Seq<char>| map_of(keys, a).dom().contains(name) implies #[trigger] map_of(
        keys,
        a,
    )[name] == map_of(keys, b)[name] by {
        let j = keys.index_of(name);
        assert(a[j]@ == b[j]@);
    }
    assert(map_of(keys, a) =~= map_of(keys, b));
}

/// Whether the entries `ids[i]` with views `views[i]` are a snapshot of
/// `map`: each key of the map exactly once, with the value it has there.
pub open spec fn is_snapshot<T>(
    ids: Seq<Seq<char>>,
    views: Seq<T>,
    map: Map<Seq<char>, T>,
) -> bool {
    &&& ids.len() == views.len()
    &&& ids.len() == map.dom().len()
    &&& ids.no_duplicates()
    &&& forall|i: int|
        0 <= i < ids.len() ==> map.dom().contains(#[trigger] ids[i]) && map[ids[i]] == views[i]
    &&& forall|key: Seq<char>| map.dom().contains(key) ==> ids.contains(key)
}

/// The names of a pairing, each with the view of its record, are a snapshot
/// of the pairing's map.
pub proof fn lemma_map_of_snapshot<V: Record>(
    keys: Seq<Seq<char>>,
    values: Seq<V>,
    views: Seq<V::V>,
)
    requires
        paired(keys, values),
        views.len() == values.len(),
        forall|i: int| 0 <= i < values.len() ==> (#[trigger] values[i])@ == views[i],
    ensures
        is_snapshot(keys, views, map_of(keys, values)),
{
    lemma_map_of_len(keys, values);
    assert forall|i: int| 0 <= i < keys.len() implies map_of(keys, values).dom().contains(
        #[trigger] keys[i],
    ) && map_of(keys, values)[keys[i]] == views[i] by {
        lemma_map_of_at(keys, values, i);
    }
}

/// Records under distinct names, in the order in which the names first came.
#[derive(Debug)]
pub struct Keyed<V> {
    names: Vec<String>,
    records: Vec<V>,
}

impl<V: Record> View for Keyed<V> {
    type V = Map<Seq<char>, V::V>;

    /// The map from each name to the view of its record.
    open spec fn view(&self) -> Map<Seq<char>, V::V> {
        map_of(self.keys(), self.values())
    }
}

impl<V: Record> Record for Keyed<V> {
    open spec fn wf(&self) -> bool {
        &&& paired(self.keys(), self.values())
        &&& forall|i: int| 0 <= i < self.values().len() ==> (#[trigger] self.values()[i]).wf()
    }

    fn duplicate(&self) -> (out: Self) {
        let n = self.names.len();
        let mut out: Keyed<V> = Keyed { names: Vec::new(), records: Vec::new() };
        let mut i: usize = 0;
        while i < n
            invariant
                self.wf(),
                n == self.keys().len(),
                i <= n,
                out.keys() == self.keys().subrange(0, i as int),
                out.values().len() == i,
                forall|j: int| 0 <= j < i ==> (#[trigger] out.values()[j]).wf(),
                forall|j: int| 0 <= j < i ==> (#[trigger] out.values()[j])@ == self.values()[j]@,
            decreases n - i,
        {
            let ghost before = out.keys();
            let name = self.names[i].clone();
            let record = self.records[i].duplicate();
            out.names.push(name);
            out.records.push(record);
            i = i + 1;
            assert(out.keys() =~= before.push(self.keys()[i - 1]));
            assert(out.keys() =~= self.keys().subrange(0, i as int));
        }
        proof {
            assert(out.keys() =~= self.keys());
            lemma_map_of_same_views(self.keys(), out.values(), self.values());
        }
        out
    }
}

impl<V: Record> Keyed<V> {
    /// The names, in the order of first insertion.
    pub closed spec fn keys(&self) -> Seq<Seq<char>> {
        Seq::new(self.names@.len(), |i: int| self.names@[i]@)
    }

    /// The records, each at the position of its name.
    pub closed spec fn values(&self) -> Seq<V> {
        self.records@
    }

    /// An empty map.
    pub fn new() -> (out: Self)
        ensures
            out.wf(),
            out.keys() == Seq::<Seq<char>>::empty(),
            out.values() == Seq::<V>::empty(),
            out@ == Map::<Seq<char>, V::V>::empty(),
    {
        let out: Keyed<V> = Keyed { names: Vec::new(), records: Vec::new() };
        assert(out.keys() =~= Seq::<Seq<char>>::empty());
        assert(out@ =~= Map::<Seq<char>, V::V>::empty());
        out
    }

    /// The number of names.
    pub fn len(&self) -> (n: usize)
        requires
            self.wf(),
        ensures
            n == self.keys().len(),
            n == self@.dom().len(),
    {
        proof {
            lemma_map_of_len(self.keys(), self.values());
        }
        self.names.len()
    }

    /// The position of `name`, if it is present.
    pub fn find(&self, name: &str) -> (at: Option<usize>)
        requires
            self.wf(),
        ensures
            match at {
                Some(i) => i < self.keys().len() && self.keys()[i as int] == name@,
                None => !self.keys().contains(name@),
            },
    {
        let probe = name.to_owned();
        let n = self.names.len();
        let mut i: usize = 0;
        while i < n
            invariant
                n == self.keys().len(),
                i <= n,
                probe@ == name@,
                forall|j: int| 0 <= j < i ==> self.keys()[j] != name@,
            decreases n - i,
        {
            if self.names[i] == probe {
                return Some(i);
            }
            i = i + 1;
        }
        None
    }

    /// The name at position `i`.
    pub fn key_at(&self, i: usize) -> (name: &String)
        requires
            i < self.keys().len(),
        ensures
            name@ == self.keys()[i as int],
    {
        &self.names[i]
    }

    /// The record at position `i`.
    pub fn value_at(&self, i: usize) -> (record: &V)
        requires
            i < self.values().len(),
        ensures
            *record == self.values()[i as int],
    {
        &self.records[i]
    }

    /// The record at position `i`, to be changed in place. The map stays
    /// sound if the record does.
    pub fn value_mut(&mut self, i: usize) -> (record: &mut V)
        requires
            old(self).wf(),
            i < old(self).keys().len(),
        ensures
            *record == old(self).values()[i as int],
            record.wf(),
            record@ == old(self)@[old(self).keys()[i as int]],
            final(self).keys() == old(self).keys(),
            final(self).values() == old(self).values().update(i as int, *final(record)),
            final(record).wf() ==> final(self).wf(),
            final(self)@ == old(self)@.insert(old(self).keys()[i as int], final(record)@),
    {
        let record = &mut self.records[i];
        proof {
            lemma_map_of_at(old(self).keys(), old(self).values(), i as int);
            lemma_map_of_update(
                old(self).keys(),
                old(self).values(),
                i as int,
                *final(record),
            );
        }
        record
    }

    /// The record under `name`, if there is one.
    pub fn get(&self, name: &str) -> (found: Option<&V>)
        requires
            self.wf(),
        ensures
            match found {
                Some(record) => self@.dom().contains(name@) && record@ == self@[name@]
                    && record.wf(),
                None => !self@.dom().contains(name@),
            },
    {
        match self.find(name) {
            Some(i) => {
                proof {
                    lemma_map_of_at(self.keys(), self.values(), i as int);
                }
                Some(&self.records[i])
            },
            None => None,
        }
    }

    /// Adds `record` under a name that is not yet present, and says where it stands.
    pub fn push(&mut self, name: String, record: V) -> (at: usize)
        requires
            old(self).wf(),
            record.wf(),
            !old(self).keys().contains(name@),
        ensures
            final(self).wf(),
            at == old(self).keys().len(),
            final(self).keys() == old(self).keys().push(name@),
            final(self).values() == old(self).values().push(record),
            final(self)@ == old(self)@.insert(name@, record@),
    {
        let at = self.names.len();
        self.names.push(name);
        self.records.push(record);
        proof {
            assert(self.keys() =~= old(self).keys().push(name@));
            lemma_map_of_push(old(self).keys(), old(self).values(), name@, record);
        }
        at
    }

    /// Puts `record` in the place of the one at position `i`.
    pub fn replace(&mut self, i: usize, record: V)
        requires
            old(self).wf(),
            record.wf(),
            i < old(self).keys().len(),
        ensures
            final(self).wf(),
            final(self).keys() == old(self).keys(),
            final(self).values() == old(self).values().update(i as int, record),
            final(self)@ == old(self)@.insert(old(self).keys()[i as int], record@),
    {
        self.records.set(i, record);
        proof {
            assert(self.keys() =~= old(self).keys());
            lemma_map_of_update(old(self).keys(), old(self).values(), i as int, record);
        }
    }

    /// Puts `record` under `name`, in the place of any record that was there.
    pub fn insert(&mut self, name: &str, record: V)
        requires
            old(self).wf(),
            record.wf(),
        ensures
            final(self).wf(),
            final(self)@ == old(self)@.insert(name@, record@),
            final(self).keys() == if old(self).keys().contains(name@) {
                old(self).keys()
            } else {
                old(self).keys().push(name@)
            },
    {
        match self.find(name) {
            Some(i) => {
                self.replace(i, record);
            },
            None => {
                self.push(name.to_owned(), record);
            },
        }
    }
}

} // verus!
