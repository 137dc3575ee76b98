//! The record of what has been mirrored: one entry per assignment, found by
//! the assignment's identifier.

use vstd::prelude::*;
use vstd::string::*;

verus! {

/// What is remembered of an assignment once a task was made for it.
#[derive(Clone, Debug, PartialEq, Eq)]
pub struct AssignmentRecord {
    pub id: String,
    pub title: String,
    pub due_date: String,
}

/// An `AssignmentRecord` as plain text.
pub ghost struct RecordView {
    pub id: Seq<char>,
    pub title: Seq<char>,
    pub due_date: Seq<char>,
}

impl View for AssignmentRecord {
    type V = RecordView;

    open spec fn view(&self) -> RecordView {
        RecordView { id: self.id@, title: self.title@, due_date: self.due_date@ }
    }
}

/// A list of records as plain text.
pub open spec fn record_views(recs: Seq<AssignmentRecord>) -> Seq<RecordView> {
    recs.map_values(|r: AssignmentRecord| r@)
}

/// No two records of the list share an identifier.
pub open spec fn distinct_record_ids(recs: Seq<RecordView>) -> bool {
    forall|i: int, j: int| 0 <= i < j < recs.len() ==> recs[i].id != recs[j].id
}

impl AssignmentRecord {
    /// A record with the same three fields.
    pub fn duplicate(&self) -> (copy: AssignmentRecord)
        ensures
            copy == *self,
    {
        AssignmentRecord {
            id: self.id.clone(),
            title: self.title.clone(),
            due_date: self.due_date.clone(),
        }
    }
}

/// The records, each under its identifier. Records stay in the order in
/// which their identifiers were first put.
pub struct RecordStore {
    records: Vec<AssignmentRecord>,
    places: Ghost<Map<Seq<char>, int>>,
}

impl View for RecordStore {
    type V = Map<Seq<char>, RecordView>;

    closed spec fn view(&self) -> Map<Seq<char>, RecordView> {
        Map::new(|k: Seq<char>| self.places@.contains_key(k), |k: Seq<char>| self.records@[self.places@[k]]@)
    }
}

impl RecordStore {
    /// No identifier occurs twice, and `places` tells where each one stands.
    pub closed spec fn wf(&self) -> bool {
        &&& forall|i: int|
            0 <= i < self.records@.len() ==> self.places@.contains_key(
                (#[trigger] self.records@[i]).id@,
            ) && self.places@[self.records@[i].id@] == i
        &&& forall|k: Seq<char>| #[trigger]
            self.places@.contains_key(k) ==> 0 <= self.places@[k] < self.records@.len()
                && self.records@[self.places@[k]].id@ == k
    }

    /// The records in the order in which their identifiers were first put.
    pub closed spec fn listing(&self) -> Seq<AssignmentRecord> {
        self.records@
    }

    /// The listing `recs` once `rec` is put: `rec` stands where a record
    /// with its identifier stood, or at the end if there was none.
    pub open spec fn listing_with(recs: Seq<AssignmentRecord>, rec: AssignmentRecord) -> Seq<
        AssignmentRecord,
    > {
        if exists|i: int| 0 <= i < recs.len() && recs[i].id@ == rec.id@ {
            Seq::new(
                recs.len(),
                |i: int|
                    if recs[i].id@ == rec.id@ {
                        rec
                    } else {
                        recs[i]
                    },
            )
        } else {
            recs.push(rec)
        }
    }

    /// A store without records.
    pub fn new() -> (store: RecordStore)
        ensures
            store.wf(),
            store@ == Map::<Seq<char>, RecordView>::empty(),
            store.listing() == Seq::<AssignmentRecord>::empty(),
    {
        let store = RecordStore { records: Vec::new(), places: Ghost(Map::empty()) };
        assert(store@ =~= Map::<Seq<char>, RecordView>::empty());
        store
    }

    /// Where the record with identifier `key` stands, if there is one.
    fn position(&self, key: &String) -> (at: Option<usize>)
        requires
            self.wf(),
        ensures
            match at {
                Some(i) => i < self.records@.len() && self.places@.contains_key(key@)
                    && self.places@[key@] == i,
                None => !self.places@.contains_key(key@),
            },
    {
        let mut i: usize = 0;
        while i < self.records.len()
            invariant
                self.wf(),
                i <= self.records@.len(),
                forall|j: int| 0 <= j < i ==> (#[trigger] self.records@[j]).id@ != key@,
            decreases self.records.len() - i,
        {
            if self.records[i].id == *key {
                return Some(i);
            }
            i += 1;
        }
        None
    }

    /// The record with identifier `key`, if there is one.
    pub fn get(&self, key: &str) -> (found: Option<&AssignmentRecord>)
        requires
            self.wf(),
        ensures
            match found {
                Some(rec) => self@.contains_key(key@) && self@[key@] == rec@,
                None => !self@.contains_key(key@),
            },
    {
        let wanted: String = String::from_str(key);
        match self.position(&wanted) {
            Some(i) => Some(&self.records[i]),
            None => None,
        }
    }

    /// Puts `rec` under its identifier, in place of the record that stood
    /// there if there was one.
    pub fn put(&mut self, rec: AssignmentRecord)
        requires
            old(self).wf(),
        ensures
            final(self).wf(),
            final(self)@ == old(self)@.insert(rec.id@, rec@),
            final(self).listing() == Self::listing_with(old(self).listing(), rec),
    {
        let ghost key = rec.id@;
        let ghost shown = rec@;
        let ghost before = self@;
        match self.position(&rec.id) {
            Some(i) => {
                self.records.set(i, rec);
                assert(old(self).records@[i as int].id@ == key);
                assert(self.records@ =~= Self::listing_with(old(self).records@, rec));
            },
            None => {
                let ghost at = self.records@.len() as int;
                self.records.push(rec);
                proof {
                    self.places@ = self.places@.insert(key, at);
                }
            },
        }
        assert(self@ =~= before.insert(key, shown));
    }

    /// The records, in the order in which their identifiers were first put:
    /// each stands in the store under its identifier, none of the
    /// identifiers occurs twice, and none of the store's is missing.
    pub fn records(&self) -> (all: &Vec<AssignmentRecord>)
        requires
            self.wf(),
        ensures
            all@ == self.listing(),
            forall|i: int|
                0 <= i < all@.len() ==> self@.contains_key((#[trigger] all@[i]).id@)
                    && self@[all@[i].id@] == all@[i]@,
            forall|i: int, j: int|
                0 <= i < j < all@.len() ==> (#[trigger] all@[i]).id@ != (#[trigger] all@[j]).id@,
            forall|k: Seq<char>| #[trigger]
                self@.contains_key(k) ==> exists|i: int|
                    0 <= i < all@.len() && (#[trigger] all@[i]).id@ == k,
    {
        proof {
            assert forall|k: Seq<char>| #[trigger] self@.contains_key(k) implies exists|i: int|
                0 <= i < self.records@.len() && (#[trigger] self.records@[i]).id@ == k by {
                let i = self.places@[k];
                assert(self.records@[i].id@ == k);
            }
        }
        &self.records
    }

    /// Every record stands under its own identifier.
    pub proof fn lemma_keys_are_ids(&self)
        requires
            self.wf(),
        ensures
            forall|k: Seq<char>| #[trigger] self@.contains_key(k) ==> self@[k].id == k,
    {
    }

    /// A store of the given records, in the order given, unless two of them
    /// share an identifier.
    pub fn from_records(recs: &Vec<AssignmentRecord>) -> (out: Option<RecordStore>)
        ensures
            out is Some <==> distinct_record_ids(record_views(recs@)),
            match out {
                Some(store) => store.wf() && store.listing() == recs@,
                None => true,
            },
    {
        let mut store = RecordStore::new();
        let mut i: usize = 0;
        assert(recs@.take(0) =~= Seq::<AssignmentRecord>::empty());
        while i < recs.len()
            invariant
                i <= recs.len(),
                store.wf(),
                store.records@ == recs@.take(i as int),
                distinct_record_ids(record_views(recs@.take(i as int))),
            decreases recs.len() - i,
        {
            match store.position(&recs[i].id) {
                Some(j) => {
                    assert(store.records@[j as int].id@ == recs@[i as int].id@);
                    assert(record_views(recs@)[j as int].id == record_views(recs@)[i as int].id);
                    return None;
                },
                None => {
                    assert forall|a: int| 0 <= a < i implies recs@[a].id@ != recs@[i as int].id@ by {
                        assert(store.records@[a] == recs@[a]);
                    }
                    store.put(recs[i].duplicate());
                    assert(store.records@ =~= recs@.take(i + 1));
                },
            }
            i += 1;
        }
        assert(recs@.take(recs.len() as int) =~= recs@);
        Some(store)
    }

    /// The listing of a store holds no identifier twice, and the store maps
    /// exactly the identifiers of its listing, each to its record.
    pub proof fn lemma_listing(&self)
        requires
            self.wf(),
        ensures
            distinct_record_ids(record_views(self.listing())),
            forall|i: int|
                0 <= i < self.listing().len() ==> self@.contains_key(
                    (#[trigger] self.listing()[i]).id@,
                ) && self@[self.listing()[i].id@] == self.listing()[i]@,
            forall|k: Seq<char>| #[trigger]
                self@.contains_key(k) ==> exists|i: int|
                    0 <= i < self.listing().len() && (#[trigger] self.listing()[i]).id@ == k,
    {
        assert forall|k: Seq<char>| #[trigger] self@.contains_key(k) implies exists|i: int|
            0 <= i < self.records@.len() && (#[trigger] self.records@[i]).id@ == k by {
            let i = self.places@[k];
            assert(self.records@[i].id@ == k);
        }
    }

    /// Two stores whose listings read the same hold the same mapping.
    pub proof fn lemma_same_listing(&self, other: &RecordStore)
        requires
            self.wf(),
            other.wf(),
            record_views(self.listing()) == record_views(other.listing()),
        ensures
            self@ == other@,
    {
        let a = record_views(self.records@);
        let b = record_views(other.records@);
        assert(a.len() == b.len());
        assert forall|k: Seq<char>| self.places@.contains_key(k) implies other.places@.contains_key(k)
            && other.places@[k] == self.places@[k] by {
            let i = self.places@[k];
            assert(a[i] == b[i]);
            assert(other.records@[i].id@ == k);
        }
        assert forall|k: Seq<char>| other.places@.contains_key(k) implies self.places@.contains_key(k) by {
            let i = other.places@[k];
            assert(a[i] == b[i]);
            assert(self.records@[i].id@ == k);
        }
        assert forall|k: Seq<char>| self@.contains_key(k) implies self@[k] == other@[k] by {
            let i = self.places@[k];
            assert(a[i] == b[i]);
        }
        assert(self@ =~= other@);
    }
}

} // verus!
