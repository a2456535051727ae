//! The address store: the records in the order they came, no two with the
//! same `id`, found by `id` or by window.

use vstd::prelude::*;
use vstd::hash_map::StringHashMap;
use crate::address::{Address, AddressView};
use crate::search::BoundingBox;

verus! {

/// The records of a list as plain values.
pub open spec fn views_of(list: Seq<Address>) -> Seq<AddressView> {
    list.map_values(|a: Address| a@)
}

/// The records that a list of references points to, as plain values.
pub open spec fn views_of_refs(list: Seq<&Address>) -> Seq<AddressView> {
    list.map_values(|a: &Address| a@)
}

/// The record of a reference, as plain values.
pub open spec fn view_of_ref(found: Option<&Address>) -> Option<AddressView> {
    match found {
        Some(a) => Some(a@),
        None => None,
    }
}

/// No two records share an `id`.
pub open spec fn distinct_ids(records: Seq<AddressView>) -> bool {
    forall|i: int, j: int|
        0 <= i < j < records.len() ==> (#[trigger] records[i]).id != (#[trigger] records[j]).id
}

/// Some record has this `id`.
pub open spec fn holds_id(records: Seq<AddressView>, id: Seq<char>) -> bool {
    exists|i: int| 0 <= i < records.len() && (#[trigger] records[i]).id == id
}

/// The first record with this `id`, or `None` where no record has it.
pub open spec fn find(records: Seq<AddressView>, id: Seq<char>) -> Option<AddressView>
    decreases records.len(),
{
    if records.len() == 0 {
        None
    } else if records[0].id == id {
        Some(records[0])
    } else {
        find(records.drop_first(), id)
    }
}

/// The records that lie in a window, in their order.
pub open spec fn inside(records: Seq<AddressView>, window: BoundingBox) -> Seq<AddressView> {
    records.filter(|a: AddressView| window.holds(a.latitude, a.longitude))
}

/// A search by `id` finds a record exactly where some record has the `id`,
/// and what it finds has that `id` and is one of the records.
pub proof fn lemma_find(records: Seq<AddressView>, id: Seq<char>)
    ensures
        find(records, id) is Some <==> holds_id(records, id),
        find(records, id) matches Some(a) ==> a.id == id && records.contains(a),
    decreases records.len(),
{
    if records.len() > 0 {
        let rest = records.drop_first();
        lemma_find(rest, id);
        if records[0].id != id {
            if holds_id(rest, id) {
                let i = choose|i: int| 0 <= i < rest.len() && (#[trigger] rest[i]).id == id;
                assert(records[i + 1] == rest[i]);
            }
            if holds_id(records, id) {
                let i = choose|i: int| 0 <= i < records.len() && (#[trigger] records[i]).id == id;
                assert(rest[i - 1] == records[i]);
            }
            if find(rest, id) is Some {
                let a = find(rest, id)->0;
                let i = choose|i: int| 0 <= i < rest.len() && rest[i] == a;
                assert(records[i + 1] == a);
            }
        }
    }
}

/// Where no two records share an `id`, a search by the `id` of a record
/// finds that record.
pub proof fn lemma_find_own(records: Seq<AddressView>, i: int)
    requires
        distinct_ids(records),
        0 <= i < records.len(),
    ensures
        find(records, records[i].id) == Some(records[i]),
    decreases records.len(),
{
    if i > 0 {
        let rest = records.drop_first();
        assert forall|a: int, b: int| 0 <= a < b < rest.len() implies (#[trigger] rest[a]).id != (
        #[trigger] rest[b]).id by {
            assert(rest[a] == records[a + 1] && rest[b] == records[b + 1]);
        }
        assert(rest[i - 1] == records[i]);
        assert(records[0].id != records[i].id);
        lemma_find_own(rest, i - 1);
    }
}

/// The records of an extract, each under the position at which it came.
pub struct AddressStore {
    records: Vec<Address>,
    by_id: StringHashMap<usize>,
}

impl View for AddressStore {
    type V = Seq<AddressView>;

    closed spec fn view(&self) -> Seq<AddressView> {
        views_of(self.records@)
    }
}

impl AddressStore {
    /// The index knows every record, and only the records, by their `id`.
    pub closed spec fn wf(&self) -> bool {
        &&& forall|i: int|
            0 <= i < self.records.len() ==> self.by_id@.contains_key(
                (#[trigger] self.records[i]).id@,
            ) && self.by_id@[self.records[i].id@] == i
        &&& forall|id: Seq<char>| #[trigger]
            self.by_id@.contains_key(id) ==> 0 <= self.by_id@[id] < self.records.len()
                && self.records[self.by_id@[id] as int].id@ == id
    }

    /// No two records of a store share an `id`.
    pub proof fn lemma_distinct_ids(&self)
        requires
            self.wf(),
        ensures
            distinct_ids(self@),
    {
        assert forall|i: int, j: int| 0 <= i < j < self@.len() implies (#[trigger] self@[i]).id != (
        #[trigger] self@[j]).id by {
            assert(self@[i] == self.records[i]@);
            assert(self@[j] == self.records[j]@);
        }
    }

    /// A store without records.
    pub fn new() -> (store: AddressStore)
        ensures
            store.wf(),
            store@ == Seq::<AddressView>::empty(),
    {
        AddressStore { records: Vec::new(), by_id: StringHashMap::new() }
    }

    /// How many records the store holds.
    pub fn len(&self) -> (n: usize)
        ensures
            n == self@.len(),
    {
        self.records.len()
    }

    /// The records in the order they were added.
    pub fn records(&self) -> (list: &Vec<Address>)
        ensures
            views_of(list@) == self@,
    {
        &self.records
    }

    /// Adds a record, unless the store holds one with the same `id`: then
    /// the store stays as it is and the record is handed back.
    pub fn insert(&mut self, address: Address) -> (r: Result<(), Address>)
        requires
            old(self).wf(),
        ensures
            final(self).wf(),
            match r {
                Ok(()) => !holds_id(old(self)@, address@.id) && final(self)@ == old(self)@.push(
                    address@,
                ),
                Err(rejected) => holds_id(old(self)@, address@.id) && final(self)@ == old(self)@
                    && rejected == address,
            },
    {
        if self.by_id.contains_key(address.id.as_str()) {
            proof {
                let at = self.by_id@[address.id@] as int;
                assert(self@[at] == self.records[at]@);
            }
            return Err(address);
        }
        proof {
            if holds_id(self@, address@.id) {
                let i = choose|i: int| 0 <= i < self@.len() && (#[trigger] self@[i]).id == address@.id;
                assert(self@[i] == self.records[i]@);
            }
        }
        let ghost before = self.records@;
        let at = self.records.len();
        self.by_id.insert(address.id.clone(), at);
        self.records.push(address);
        proof {
            assert(self.records@ == before.push(address));
            assert(views_of(self.records@) == views_of(before).push(address@));
            assert forall|i: int| 0 <= i < self.records.len() implies self.by_id@.contains_key(
                (#[trigger] self.records[i]).id@,
            ) && self.by_id@[self.records[i].id@] == i by {
                if i < at {
                    assert(self.records[i] == before[i]);
                }
            }
            assert forall|id: Seq<char>| #[trigger]
                self.by_id@.contains_key(id) implies 0 <= self.by_id@[id] < self.records.len()
                && self.records[self.by_id@[id] as int].id@ == id by {
                if id != address.id@ {
                    assert(self.records[self.by_id@[id] as int] == before[self.by_id@[id] as int]);
                }
            }
        }
        Ok(())
    }

    /// Looks a record up by its `id`. Returns `None` where the store holds
    /// no record with that `id`.
    pub fn lookup(&self, id: &str) -> (r: Option<&Address>)
        requires
            self.wf(),
        ensures
            view_of_ref(r) == find(self@, id@),
            r is Some <==> holds_id(self@, id@),
    {
        proof {
            self.lemma_distinct_ids();
            lemma_find(self@, id@);
        }
        match self.by_id.get(id) {
            Some(at) => {
                proof {
                    assert(self@[*at as int] == self.records[*at as int]@);
                    lemma_find_own(self@, *at as int);
                }
                Some(&self.records[*at])
            },
            None => {
                proof {
                    if holds_id(self@, id@) {
                        let i = choose|i: int| 0 <= i < self@.len() && (#[trigger] self@[i]).id == id@;
                        assert(self@[i] == self.records[i]@);
                    }
                }
                None
            },
        }
    }

    /// The records that lie in a window, in the order they were added.
    pub fn within(&self, window: &BoundingBox) -> (found: Vec<&Address>)
        ensures
            views_of_refs(found@) == inside(self@, *window),
    {
        let mut found: Vec<&Address> = Vec::new();
        let ghost holds = |a: AddressView| window.holds(a.latitude, a.longitude);
        let mut at: usize = 0;
        proof {
            reveal(Seq::filter);
            assert(self@.take(0) == Seq::<AddressView>::empty());
        }
        while at < self.records.len()
            invariant
                at <= self.records.len(),
                holds == |a: AddressView| window.holds(a.latitude, a.longitude),
                views_of_refs(found@) == self@.take(at as int).filter(holds),
            decreases self.records.len() - at,
        {
            let record = &self.records[at];
            proof {
                reveal(Seq::filter);
                assert(self@.take(at + 1).drop_last() == self@.take(at as int));
                assert(self@.take(at + 1).last() == record@);
            }
            if window.contains(record.latitude, record.longitude) {
                let ghost before = found@;
                found.push(record);
                assert(views_of_refs(found@) == views_of_refs(before).push(record@));
            }
            at += 1;
        }
        proof {
            assert(self@.take(at as int) == self@);
        }
        found
    }
}

} // verus!
