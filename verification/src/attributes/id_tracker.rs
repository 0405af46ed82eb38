use vstd::prelude::*;

use crate::attributes::source_attribute::SourceAttribute;
use crate::error::{Error, ErrorKind};
use crate::tracking::{joined, still_pending_prefix, IdStore};

verus! {

/// One attribute ledger record, under its older field name.
#[derive(Debug, Clone)]
pub struct Entry {
    pub id: String,
    pub attribute_type: String,
}

/// The pending map an entry sequence seeds; a repeated id keeps the later entry.
pub open spec fn entries_map(entries: Seq<Entry>) -> Map<Seq<char>, String>
    decreases entries.len(),
{
    if entries.len() == 0 {
        Map::empty()
    } else {
        entries_map(entries.drop_last()).insert(
            entries.last().id@,
            entries.last().attribute_type,
        )
    }
}

/// The entry ids, in ledger order.
pub open spec fn entry_ids(entries: Seq<Entry>) -> Seq<Seq<char>> {
    entries.map_values(|e: Entry| e.id@)
}

/// Reconciles attribute records against the ledger: besides confirming each
/// id at most once, it holds every attribute to the data type the ledger
/// recorded for it.
pub struct IdTracker {
    store: IdStore<String>,
}

impl IdTracker {
    /// Ledger ids not yet confirmed this run, each with its recorded data type.
    pub closed spec fn pending(&self) -> Map<Seq<char>, String> {
        self.store.pending_map()
    }

    /// Ids already confirmed this run.
    pub closed spec fn found(&self) -> Set<Seq<char>> {
        self.store.found_ids()
    }

    /// The ledger ids in seeding order.
    pub closed spec fn seeded(&self) -> Seq<Seq<char>> {
        self.store.seeded_ids()
    }

    /// The pending ids never confirmed, in seeding order: determined by
    /// the seeding order and the pending map.
    pub open spec fn missing(&self) -> Seq<Seq<char>> {
        still_pending_prefix(self.seeded(), self.pending().dom(), self.seeded().len() as int)
    }

    pub closed spec fn wf(&self) -> bool {
        self.store.wf()
    }

    pub fn new(entries: Vec<Entry>) -> (t: IdTracker)
        ensures
            t.wf(),
            t.pending() == entries_map(entries@),
            t.found() == Set::<Seq<char>>::empty(),
            t.seeded() == entry_ids(entries@),
    {
        let mut store: IdStore<String> = IdStore::new();
        let mut i: usize = 0;
        while i < entries.len()
            invariant
                0 <= i <= entries@.len(),
                store.wf(),
                store.pending_map() == entries_map(entries@.take(i as int)),
                store.found_ids() == Set::<Seq<char>>::empty(),
                store.seeded_ids() == entry_ids(entries@.take(i as int)),
            decreases entries@.len() - i,
        {
            let entry = &entries[i];
            store.seed(entry.id.clone(), entry.attribute_type.clone());
            proof {
                assert(entries@.take(i + 1).drop_last() =~= entries@.take(i as int));
                assert(entries@.take(i + 1).last() == entries@[i as int]);
                assert(entry_ids(entries@.take(i + 1)) =~= entry_ids(
                    entries@.take(i as int),
                ).push(entries@[i as int].id@));
            }
            i = i + 1;
        }
        proof {
            assert(entries@.take(entries@.len() as int) =~= entries@);
        }
        IdTracker { store }
    }

    /// Tracks one attribute record against the ledger.
    ///
    /// A record without an id fails with `MissingId`. A pending id whose
    /// data type matches the ledger is confirmed; one whose data type
    /// differs fails with `TypeChanged` (the ledger entry is consumed but
    /// not confirmed). An id already confirmed fails with `DuplicatedId`;
    /// one the ledger never issued fails with `IdNotFound`.
    pub fn track_attribute(&mut self, attribute: &SourceAttribute) -> (r: Result<(), Error>)
        requires
            old(self).wf(),
        ensures
            final(self).wf(),
            final(self).seeded() == old(self).seeded(),
            attribute.id is None ==> (r matches Err(e) && e.kind == ErrorKind::MissingId)
                && final(self).pending() == old(self).pending()
                && final(self).found() == old(self).found(),
            attribute.id matches Some(id) ==> {
                let key = id@;
                &&& (old(self).pending().contains_key(key)
                    && old(self).pending()[key]@ == attribute.data_type@) ==> (r is Ok
                    && final(self).pending() == old(self).pending().remove(key)
                    && final(self).found() == old(self).found().insert(key))
                &&& (old(self).pending().contains_key(key)
                    && old(self).pending()[key]@ != attribute.data_type@)
                    ==> ((r matches Err(e) && e.kind == ErrorKind::TypeChanged)
                    && final(self).pending() == old(self).pending().remove(key)
                    && final(self).found() == old(self).found())
                &&& (!old(self).pending().contains_key(key) && old(self).found().contains(key))
                    ==> ((r matches Err(e) && e.kind == ErrorKind::DuplicatedId)
                    && final(self).pending() == old(self).pending()
                    && final(self).found() == old(self).found())
                &&& (!old(self).pending().contains_key(key) && !old(self).found().contains(key))
                    ==> ((r matches Err(e) && e.kind == ErrorKind::IdNotFound)
                    && final(self).pending() == old(self).pending()
                    && final(self).found() == old(self).found())
            },
    {
        match &attribute.id {
            Some(id) => {
                let looked_up: Option<String> = match self.store.get_pending(id.as_str()) {
                    Some(expected) => Some(expected.clone()),
                    None => None,
                };
                match looked_up {
                    Some(expected_type) => {
                        self.store.remove_pending(id.as_str());
                        if !(expected_type == attribute.data_type) {
                            let mut message = String::from_str("expected attribute with type ");
                            message.append(expected_type.as_str());
                            message.append(" but found ");
                            message.append(attribute.data_type.as_str());
                            return Err(Error::from_string(ErrorKind::TypeChanged, message));
                        }
                        self.store.mark_found(id.as_str());
                        Ok(())
                    },
                    None => {
                        if self.store.found_contains(id.as_str()) {
                            let mut message = String::from_str("duplicated attribute id ");
                            message.append(id.as_str());
                            return Err(Error::from_string(ErrorKind::DuplicatedId, message));
                        }
                        let mut message = String::from_str("attribute with id ");
                        message.append(id.as_str());
                        message.append(" does not exist");
                        Err(Error::from_string(ErrorKind::IdNotFound, message))
                    },
                }
            },
            None => Err(Error::new(ErrorKind::MissingId, "attribute has no id")),
        }
    }

    /// To be called once every attribute has been tracked: fails with
    /// `IdNotTracked`, naming the leftover ids, if any ledger id was
    /// never confirmed this run.
    pub fn close(&self) -> (r: Result<(), Error>)
        requires
            self.wf(),
        ensures
            r is Ok <==> self.pending().dom().is_empty(),
            r matches Err(e) ==> e.kind == ErrorKind::IdNotTracked && e.message@
                == "some attribute ids were not tracked: "@ + joined(self.missing()),
    {
        if self.store.pending_is_empty() {
            return Ok(());
        }
        let mut message = String::from_str("some attribute ids were not tracked: ");
        let report = self.store.report_pending();
        message.append(report.as_str());
        Err(Error::from_string(ErrorKind::IdNotTracked, message))
    }
}

} // verus!
