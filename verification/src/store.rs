//! The lazily initialised keyed collection store.
//!
//! A store maps an owner, identified by a string, to one ordered,
//! append-only collection of records. A collection comes into being the
//! first time its owner is observed: empty, or holding the store's one
//! default record when the store was built with one.

use vstd::prelude::*;

verus! {

/// A record that can be kept in a [`Store`]: it has a mathematical view and
/// can be copied without changing that view.
pub trait Record: Sized + View {
    fn duplicate(&self) -> (copy: Self)
        ensures
            copy@ == self@,
    ;
}

/// The views of a sequence of records, in the same order.
pub open spec fn views<R: View>(records: Seq<R>) -> Seq<R::V> {
    Seq::new(records.len(), |i: int| records[i]@)
}

/// The view of an optional record.
pub open spec fn seed_of<R: View>(seed: Option<R>) -> Option<R::V> {
    match seed {
        Some(record) => Some(record@),
        None => None,
    }
}

/// What a collection holds when it is born: the default record alone, or
/// nothing.
pub open spec fn initial<V>(seed: Option<V>) -> Seq<V> {
    match seed {
        Some(record) => seq![record],
        None => Seq::empty(),
    }
}

/// What `owner` sees when reading a store whose contents are `m`.
pub open spec fn listing<V>(m: Map<Seq<char>, Seq<V>>, owner: Seq<char>, seed: Option<V>) -> Seq<
    V,
> {
    if m.dom().contains(owner) {
        m[owner]
    } else {
        initial(seed)
    }
}

/// The contents after `owner` has read the store: a missing collection is
/// created only when there is a default record to put in it.
pub open spec fn materialized<V>(
    m: Map<Seq<char>, Seq<V>>,
    owner: Seq<char>,
    seed: Option<V>,
) -> Map<Seq<char>, Seq<V>> {
    if m.dom().contains(owner) || seed is None {
        m
    } else {
        m.insert(owner, initial(seed))
    }
}

/// The contents after `record` has been appended for `owner`: a missing
/// collection is created first, then the record goes to its end.
pub open spec fn appended<V>(
    m: Map<Seq<char>, Seq<V>>,
    owner: Seq<char>,
    seed: Option<V>,
    record: V,
) -> Map<Seq<char>, Seq<V>> {
    m.insert(owner, listing(m, owner, seed).push(record))
}

/// One owner's collection.
struct Entry<R> {
    owner: String,
    records: Vec<R>,
}

/// A map from owner to collection, with at most one collection per owner.
pub struct Store<R: Record> {
    entries: Vec<Entry<R>>,
    seed: Option<R>,
}

/// Whether some entry of `entries` belongs to `key`.
spec fn holds<R>(entries: Seq<Entry<R>>, key: Seq<char>) -> bool {
    exists|i: int| 0 <= i < entries.len() && #[trigger] entries[i].owner@ == key
}

/// The position of the entry that belongs to `key`.
spec fn slot<R>(entries: Seq<Entry<R>>, key: Seq<char>) -> int {
    choose|i: int| 0 <= i < entries.len() && #[trigger] entries[i].owner@ == key
}

/// No two entries belong to the same owner.
spec fn distinct<R>(entries: Seq<Entry<R>>) -> bool {
    forall|i: int, j: int|
        0 <= i < j < entries.len() ==> #[trigger] entries[i].owner@ != #[trigger] entries[j].owner@
}

/// In a list without repeated owners, an owner's entry is found at its own
/// position.
proof fn lemma_slot<R>(entries: Seq<Entry<R>>, i: int)
    requires
        distinct(entries),
        0 <= i < entries.len(),
    ensures
        holds(entries, entries[i].owner@),
        slot(entries, entries[i].owner@) == i,
{
    let key = entries[i].owner@;
    assert(entries[i].owner@ == key);
    let j = slot(entries, key);
    assert(0 <= j < entries.len() && entries[j].owner@ == key);
    if j < i {
        assert(entries[j].owner@ != entries[i].owner@);
    } else if i < j {
        assert(entries[i].owner@ != entries[j].owner@);
    }
}

/// Replacing the records of entry `i` keeps every owner in place.
proof fn lemma_replaced<R>(before: Seq<Entry<R>>, after: Seq<Entry<R>>, i: int)
    requires
        distinct(before),
        0 <= i < before.len(),
        after.len() == before.len(),
        forall|j: int| 0 <= j < before.len() ==> (#[trigger] after[j]).owner@ == before[j].owner@,
        forall|j: int| 0 <= j < before.len() && j != i ==> #[trigger] after[j] == before[j],
    ensures
        distinct(after),
        forall|key: Seq<char>| holds(after, key) == holds(before, key),
        forall|key: Seq<char>|
            #[trigger] holds(before, key) ==> slot(after, key) == slot(before, key),
{
    assert forall|a: int, b: int| 0 <= a < b < after.len() implies #[trigger] after[a].owner@
        != #[trigger] after[b].owner@ by {
        assert(before[a].owner@ != before[b].owner@);
    }
    assert forall|key: Seq<char>| holds(after, key) == holds(before, key) by {
        if holds(after, key) {
            let j = slot(after, key);
            assert(before[j].owner@ == key);
        }
        if holds(before, key) {
            let j = slot(before, key);
            assert(after[j].owner@ == key);
        }
    }
    assert forall|key: Seq<char>| #[trigger] holds(before, key) implies slot(after, key) == slot(
        before,
        key,
    ) by {
        let j = slot(before, key);
        assert(after[j].owner@ == key);
        lemma_slot(after, j);
    }
}

/// Adding an entry for a new owner keeps every other owner in place.
proof fn lemma_pushed<R>(before: Seq<Entry<R>>, after: Seq<Entry<R>>)
    requires
        distinct(before),
        after.len() == before.len() + 1,
        forall|j: int| 0 <= j < before.len() ==> #[trigger] after[j] == before[j],
        !holds(before, after[before.len() as int].owner@),
    ensures
        distinct(after),
        forall|key: Seq<char>|
            holds(after, key) == (holds(before, key) || key == after[before.len() as int].owner@),
        forall|key: Seq<char>|
            #[trigger] holds(before, key) ==> slot(after, key) == slot(before, key),
        slot(after, after[before.len() as int].owner@) == before.len(),
{
    let n = before.len() as int;
    let fresh = after[n].owner@;
    assert forall|a: int, b: int| 0 <= a < b < after.len() implies #[trigger] after[a].owner@
        != #[trigger] after[b].owner@ by {
        if b < n {
            assert(before[a].owner@ != before[b].owner@);
        } else {
            assert(before[a].owner@ == after[a].owner@);
        }
    }
    assert forall|key: Seq<char>|
        holds(after, key) == (holds(before, key) || key == fresh) by {
        if holds(after, key) {
            let j = slot(after, key);
            if j < n {
                assert(before[j].owner@ == key);
            }
        }
        if holds(before, key) {
            let j = slot(before, key);
            assert(after[j].owner@ == key);
        }
        if key == fresh {
            assert(after[n].owner@ == key);
        }
    }
    assert forall|key: Seq<char>| #[trigger] holds(before, key) implies slot(after, key) == slot(
        before,
        key,
    ) by {
        let j = slot(before, key);
        assert(after[j].owner@ == key);
        lemma_slot(after, j);
    }
    lemma_slot(after, n);
}

/// Taking entry `i` out keeps every other owner's entry as it was.
proof fn lemma_removed<R>(before: Seq<Entry<R>>, i: int)
    requires
        distinct(before),
        0 <= i < before.len(),
    ensures
        distinct(before.remove(i)),
        forall|key: Seq<char>|
            holds(before.remove(i), key) == (holds(before, key) && key != before[i].owner@),
        forall|key: Seq<char>|
            #[trigger] holds(before, key) && key != before[i].owner@ ==> before.remove(i)[slot(
                before.remove(i),
                key,
            )] == before[slot(before, key)],
{
    let after = before.remove(i);
    assert forall|a: int, b: int| 0 <= a < b < after.len() implies #[trigger] after[a].owner@
        != #[trigger] after[b].owner@ by {
        let a0 = if a < i { a } else { a + 1 };
        let b0 = if b < i { b } else { b + 1 };
        assert(before[a0].owner@ != before[b0].owner@);
    }
    assert forall|key: Seq<char>|
        holds(after, key) == (holds(before, key) && key != before[i].owner@) by {
        if holds(after, key) {
            let j = slot(after, key);
            let j0 = if j < i { j } else { j + 1 };
            assert(before[j0].owner@ == key);
            lemma_slot(before, j0);
            lemma_slot(before, i);
        }
        if holds(before, key) && key != before[i].owner@ {
            let j0 = slot(before, key);
            let j = if j0 < i { j0 } else { j0 - 1 };
            assert(after[j].owner@ == key);
        }
    }
    assert forall|key: Seq<char>| #[trigger]
        holds(before, key) && key != before[i].owner@ implies after[slot(after, key)]
        == before[slot(before, key)] by {
        let j0 = slot(before, key);
        let j = if j0 < i { j0 } else { j0 - 1 };
        assert(after[j].owner@ == key);
        lemma_slot(after, j);
    }
}

impl<R: Record> View for Store<R> {
    type V = Map<Seq<char>, Seq<R::V>>;

    closed spec fn view(&self) -> Map<Seq<char>, Seq<R::V>> {
        Map::new(
            |key: Seq<char>| holds(self.entries@, key),
            |key: Seq<char>| views(self.entries@[slot(self.entries@, key)].records@),
        )
    }
}

impl<R: Record> Store<R> {
    #[verifier::type_invariant]
    spec fn well_formed(self) -> bool {
        distinct(self.entries@)
    }

    /// The view of the default record, if the store has one.
    pub closed spec fn seed(&self) -> Option<R::V> {
        seed_of(self.seed)
    }

    /// A store without collections. With `Some(record)`, every collection
    /// is born holding that record; with `None`, it is born empty.
    pub fn new(seed: Option<R>) -> (store: Self)
        ensures
            store@ == Map::<Seq<char>, Seq<R::V>>::empty(),
            store.seed() == seed_of(seed),
    {
        let store = Store { entries: Vec::new(), seed };
        assert(store@ =~= Map::<Seq<char>, Seq<R::V>>::empty());
        store
    }

    fn find(&self, key: &String) -> (found: Option<usize>)
        ensures
            match found {
                Some(i) => i < self.entries@.len() && self.entries@[i as int].owner@ == key@,
                None => !holds(self.entries@, key@),
            },
            found is Some <==> self@.dom().contains(key@),
            found matches Some(i) ==> self@[key@] == views(self.entries@[i as int].records@),
    {
        let mut i: usize = 0;
        while i < self.entries.len()
            invariant
                i <= self.entries@.len(),
                forall|j: int| 0 <= j < i ==> (#[trigger] self.entries@[j]).owner@ != key@,
            decreases self.entries@.len() - i,
        {
            if self.entries[i].owner == *key {
                proof {
                    use_type_invariant(self);
                    lemma_slot(self.entries@, i as int);
                }
                return Some(i);
            }
            i += 1;
        }
        None
    }

    /// Whether `owner` has a collection.
    pub fn contains(&self, owner: &str) -> (present: bool)
        ensures
            present == self@.dom().contains(owner@),
    {
        let key = owner.to_owned();
        self.find(&key).is_some()
    }

    /// The collection stored for `owner`, if there is one. Nothing is
    /// created and the default record plays no part.
    pub fn get(&self, owner: &str) -> (found: Option<Vec<R>>)
        ensures
            found is Some <==> self@.dom().contains(owner@),
            found matches Some(records) ==> views(records@) == self@[owner@] && records@.len()
                == self@[owner@].len(),
    {
        let key = owner.to_owned();
        match self.find(&key) {
            Some(i) => Some(copy_records(&self.entries[i].records)),
            None => None,
        }
    }

    /// How many records `owner` sees when reading the store.
    pub fn count(&self, owner: &str) -> (n: usize)
        ensures
            n == listing(self@, owner@, self.seed()).len(),
    {
        let key = owner.to_owned();
        match self.find(&key) {
            Some(i) => {
                assert(views(self.entries@[i as int].records@).len()
                    == self.entries@[i as int].records@.len());
                self.entries[i].records.len()
            },
            None => match &self.seed {
                Some(_) => 1,
                None => 0,
            },
        }
    }

    /// What `owner` sees when reading the store, in insertion order. The
    /// store is left as it is: a missing collection is not created.
    pub fn peek(&self, owner: &str) -> (records: Vec<R>)
        ensures
            views(records@) == listing(self@, owner@, self.seed()),
            records@.len() == listing(self@, owner@, self.seed()).len(),
    {
        let key = owner.to_owned();
        match self.find(&key) {
            Some(i) => copy_records(&self.entries[i].records),
            None => {
                let mut born: Vec<R> = Vec::new();
                match &self.seed {
                    Some(record) => {
                        born.push(record.duplicate());
                    },
                    None => {},
                }
                assert(views(born@) =~= initial(self.seed()));
                assert(views(born@).len() == born@.len());
                born
            },
        }
    }

    /// The collection of `owner`, in insertion order. Where the owner has
    /// none yet and the store has a default record, the collection is
    /// created holding that record, and kept.
    pub fn list(&mut self, owner: &str) -> (records: Vec<R>)
        ensures
            views(records@) == listing(old(self)@, owner@, old(self).seed()),
            records@.len() == listing(old(self)@, owner@, old(self).seed()).len(),
            final(self)@ == materialized(old(self)@, owner@, old(self).seed()),
            final(self).seed() == old(self).seed(),
    {
        let records = self.peek(owner);
        if records.len() > 0 && !self.contains(owner) {
            let born = copy_records(&records);
            self.insert(owner, born);
        }
        records
    }

    /// Appends `record` to the collection of `owner`. Where the owner has
    /// none yet, it is created first, with the default record if the store
    /// has one, and the new record follows it.
    pub fn append(&mut self, owner: &str, record: R)
        ensures
            final(self)@ == appended(old(self)@, owner@, old(self).seed(), record@),
            final(self).seed() == old(self).seed(),
    {
        let mut records = self.peek(owner);
        let ghost before = views(records@);
        records.push(record);
        assert(views(records@) =~= before.push(record@));
        self.insert(owner, records);
    }

    /// Deletes the whole collection of `owner`. Says whether there was one;
    /// where there was none, nothing changes.
    pub fn remove(&mut self, owner: &str) -> (removed: bool)
        ensures
            removed == old(self)@.dom().contains(owner@),
            final(self)@ == old(self)@.remove(owner@),
            final(self).seed() == old(self).seed(),
    {
        let key = owner.to_owned();
        let found = self.find(&key);
        proof {
            use_type_invariant(&*self);
        }
        match found {
            Some(i) => {
                let mut entries: Vec<Entry<R>> = Vec::new();
                std::mem::swap(&mut self.entries, &mut entries);
                proof {
                    lemma_removed(entries@, i as int);
                }
                entries.remove(i);
                self.entries = entries;
                assert(self@ =~= old(self)@.remove(owner@));
                true
            },
            None => {
                assert(self@ =~= old(self)@.remove(owner@));
                false
            },
        }
    }

    /// Stores `records` as the whole collection of `owner`, in place of any
    /// collection the owner had.
    pub fn insert(&mut self, owner: &str, records: Vec<R>)
        ensures
            final(self)@ == old(self)@.insert(owner@, views(records@)),
            final(self).seed() == old(self).seed(),
    {
        let key = owner.to_owned();
        let found = self.find(&key);
        proof {
            use_type_invariant(&*self);
        }
        let mut entries: Vec<Entry<R>> = Vec::new();
        std::mem::swap(&mut self.entries, &mut entries);
        let ghost before = entries@;
        match found {
            Some(i) => {
                entries[i].records = records;
                proof {
                    lemma_replaced(before, entries@, i as int);
                }
            },
            None => {
                entries.push(Entry { owner: key, records });
                proof {
                    lemma_pushed(before, entries@);
                }
            },
        }
        self.entries = entries;
        assert(self@ =~= old(self)@.insert(owner@, views(records@)));
    }
}

/// A copy of `records`, record by record.
fn copy_records<R: Record>(records: &Vec<R>) -> (copy: Vec<R>)
    ensures
        views(copy@) == views(records@),
        copy@.len() == records@.len(),
{
    let mut copy: Vec<R> = Vec::new();
    let mut i: usize = 0;
    while i < records.len()
        invariant
            i <= records@.len(),
            copy@.len() == i,
            forall|j: int| 0 <= j < i ==> (#[trigger] copy@[j])@ == records@[j]@,
        decreases records@.len() - i,
    {
        copy.push(records[i].duplicate());
        i += 1;
    }
    assert(views(copy@) =~= views(records@));
    copy
}

} // verus!
