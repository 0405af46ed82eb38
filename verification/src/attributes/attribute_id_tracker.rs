use vstd::prelude::*;

use crate::attributes::attribute_tracker_io::AttributeEntry;
use crate::error::{Error, ErrorKind};
use crate::tracking::{joined, still_pending_prefix, IdStore};

verus! {

/// The pending map an entry sequence seeds: each id maps to its recorded
/// data type; a repeated id keeps the later entry.
pub open spec fn attribute_entries_map(entries: Seq<AttributeEntry>) -> Map<Seq<char>, String>
    decreases entries.len(),
{
    if entries.len() == 0 {
        Map::empty()
    } else {
        attribute_entries_map(entries.drop_last()).insert(
            entries.last().id@,
            entries.last().data_type,
        )
    }
}

/// The entry ids, in ledger order.
pub open spec fn attribute_entry_ids(entries: Seq<AttributeEntry>) -> Seq<Seq<char>> {
    entries.map_values(|e: AttributeEntry| e.id@)
}

/// Reconciles the attribute ids seen this run against the ledger,
/// by id alone.
pub struct AttributeIdTracker {
    store: IdStore<String>,
}

impl AttributeIdTracker {
    /// Ledger ids not yet confirmed this run, each with its recorded data type.
    pub closed spec fn pending(&self) -> Map<Seq<char>, String> {
        self.store.pending_map()
    }

    /// Ids already confirmed this run.
    pub closed spec fn found(&self) -> Set<Seq<char>> {
        self.store.found_ids()
    }

    /// The ledger ids in seeding order.
    pub closed spec fn seeded(&self) -> Seq<Seq<char>> {
        self.store.seeded_ids()
    }

    /// The pending ids never confirmed, in seeding order: determined by
    /// the seeding order and the pending map.
    pub open spec fn missing(&self) -> Seq<Seq<char>> {
        still_pending_prefix(self.seeded(), self.pending().dom(), self.seeded().len() as int)
    }

    pub closed spec fn wf(&self) -> bool {
        self.store.wf()
    }

    pub fn new(entries: &Vec<AttributeEntry>) -> (t: AttributeIdTracker)
        ensures
            t.wf(),
            t.pending() == attribute_entries_map(entries@),
            t.found() == Set::<Seq<char>>::empty(),
            t.seeded() == attribute_entry_ids(entries@),
    {
        let mut store: IdStore<String> = IdStore::new();
        let mut i: usize = 0;
        while i < entries.len()
            invariant
                0 <= i <= entries@.len(),
                store.wf(),
                store.pending_map() == attribute_entries_map(entries@.take(i as int)),
                store.found_ids() == Set::<Seq<char>>::empty(),
                store.seeded_ids() == attribute_entry_ids(entries@.take(i as int)),
            decreases entries@.len() - i,
        {
            let entry = &entries[i];
            store.seed(entry.id.clone(), entry.data_type.clone());
            proof {
                assert(entries@.take(i + 1).drop_last() =~= entries@.take(i as int));
                assert(entries@.take(i + 1).last() == entries@[i as int]);
                assert(attribute_entry_ids(entries@.take(i + 1)) =~= attribute_entry_ids(
                    entries@.take(i as int),
                ).push(entries@[i as int].id@));
            }
            i = i + 1;
        }
        proof {
            assert(entries@.take(entries@.len() as int) =~= entries@);
        }
        AttributeIdTracker { store }
    }

    /// Tracks one attribute id against the ledger.
    ///
    /// A pending id is confirmed; an id already confirmed fails with
    /// `DuplicatedId`; an id the ledger never issued fails with `IdNotFound`.
    pub fn track_attribute(&mut self, id: &str) -> (r: Result<(), Error>)
        requires
            old(self).wf(),
        ensures
            final(self).wf(),
            final(self).seeded() == old(self).seeded(),
            old(self).pending().contains_key(id@) ==> r is Ok && final(self).pending() == old(self).pending().remove(id@) && final(self).found() == old(self).found().insert(id@),
            !old(self).pending().contains_key(id@) && old(self).found().contains(id@) ==> (
            r matches Err(e) && e.kind == ErrorKind::DuplicatedId) && final(self).pending() == old(self).pending() && final(self).found() == old(self).found(),
            !old(self).pending().contains_key(id@) && !old(self).found().contains(id@) ==> (
            r matches Err(e) && e.kind == ErrorKind::IdNotFound) && final(self).pending() == old(self).pending() && final(self).found() == old(self).found(),
    {
        if self.store.pending_contains(id) {
            self.store.remove_pending(id);
            self.store.mark_found(id);
            Ok(())
        } else if self.store.found_contains(id) {
            let mut message = String::from_str("duplicated attribute id ");
            message.append(id);
            Err(Error::from_string(ErrorKind::DuplicatedId, message))
        } else {
            let mut message = String::from_str("attribute with id ");
            message.append(id);
            message.append(" does not exist");
            Err(Error::from_string(ErrorKind::IdNotFound, message))
        }
    }

    /// To be called once every attribute has been tracked: fails with
    /// `IdNotTracked`, naming the leftover ids, if any ledger id was
    /// never confirmed this run.
    pub fn close(&self) -> (r: Result<(), Error>)
        requires
            self.wf(),
        ensures
            r is Ok <==> self.pending().dom().is_empty(),
            r matches Err(e) ==> e.kind == ErrorKind::IdNotTracked && e.message@
                == "some attribute ids were not tracked: "@ + joined(self.missing()),
    {
        if self.store.pending_is_empty() {
            return Ok(());
        }
        let mut message = String::from_str("some attribute ids were not tracked: ");
        let report = self.store.report_pending();
        message.append(report.as_str());
        Err(Error::from_string(ErrorKind::IdNotTracked, message))
    }
}

} // verus!
