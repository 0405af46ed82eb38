use vstd::prelude::*;

use crate::error::{Error, ErrorKind};
use crate::tracking::{joined, still_pending_prefix, IdStore};

verus! {

/// One category ledger record: nothing beyond the id ever issued.
#[derive(Debug, Clone)]
pub struct CategoryEntry {
    pub id: String,
}

/// The pending map an entry sequence seeds.
pub open spec fn category_entries_map(entries: Seq<CategoryEntry>) -> Map<Seq<char>, bool>
    decreases entries.len(),
{
    if entries.len() == 0 {
        Map::empty()
    } else {
        category_entries_map(entries.drop_last()).insert(entries.last().id@, true)
    }
}

/// The entry ids, in ledger order.
pub open spec fn category_entry_ids(entries: Seq<CategoryEntry>) -> Seq<Seq<char>> {
    entries.map_values(|e: CategoryEntry| e.id@)
}

/// Reconciles the category ids seen this run against the ledger.
pub struct CategoryIdTracker {
    store: IdStore<bool>,
}

impl CategoryIdTracker {
    /// Ledger ids not yet confirmed this run.
    pub closed spec fn pending(&self) -> Map<Seq<char>, bool> {
        self.store.pending_map()
    }

    /// Ids already confirmed this run.
    pub closed spec fn found(&self) -> Set<Seq<char>> {
        self.store.found_ids()
    }

    /// The ledger ids in seeding order.
    pub closed spec fn seeded(&self) -> Seq<Seq<char>> {
        self.store.seeded_ids()
    }

    /// The pending ids never confirmed, in seeding order: determined by
    /// the seeding order and the pending map.
    pub open spec fn missing(&self) -> Seq<Seq<char>> {
        still_pending_prefix(self.seeded(), self.pending().dom(), self.seeded().len() as int)
    }

    pub closed spec fn wf(&self) -> bool {
        self.store.wf()
    }

    pub fn new(entries: Vec<CategoryEntry>) -> (t: CategoryIdTracker)
        ensures
            t.wf(),
            t.pending() == category_entries_map(entries@),
            t.found() == Set::<Seq<char>>::empty(),
            t.seeded() == category_entry_ids(entries@),
    {
        let mut store: IdStore<bool> = IdStore::new();
        let mut i: usize = 0;
        while i < entries.len()
            invariant
                0 <= i <= entries@.len(),
                store.wf(),
                store.pending_map() == category_entries_map(entries@.take(i as int)),
                store.found_ids() == Set::<Seq<char>>::empty(),
                store.seeded_ids() == category_entry_ids(entries@.take(i as int)),
            decreases entries@.len() - i,
        {
            let entry = &entries[i];
            store.seed(entry.id.clone(), true);
            proof {
                assert(entries@.take(i + 1).drop_last() =~= entries@.take(i as int));
                assert(entries@.take(i + 1).last() == entries@[i as int]);
                assert(category_entry_ids(entries@.take(i + 1)) =~= category_entry_ids(
                    entries@.take(i as int),
                ).push(entries@[i as int].id@));
            }
            i = i + 1;
        }
        proof {
            assert(entries@.take(entries@.len() as int) =~= entries@);
        }
        CategoryIdTracker { store }
    }

    /// Tracks one category id against the ledger.
    ///
    /// A pending id is confirmed; an id already confirmed fails with
    /// `DuplicatedId`; an id the ledger never issued fails with `IdNotFound`.
    pub fn track_category(&mut self, id: &str) -> (r: Result<(), Error>)
        requires
            old(self).wf(),
        ensures
            final(self).wf(),
            final(self).seeded() == old(self).seeded(),
            old(self).pending().contains_key(id@) ==> r is Ok && final(self).pending() == old(self).pending().remove(id@) && final(self).found() == old(self).found().insert(id@),
            !old(self).pending().contains_key(id@) && old(self).found().contains(id@) ==> (
            r matches Err(e) && e.kind == ErrorKind::DuplicatedId) && final(self).pending() == old(self).pending() && final(self).found() == old(self).found(),
            !old(self).pending().contains_key(id@) && !old(self).found().contains(id@) ==> (
            r matches Err(e) && e.kind == ErrorKind::IdNotFound) && final(self).pending() == old(self).pending() && final(self).found() == old(self).found(),
    {
        if self.store.pending_contains(id) {
            self.store.remove_pending(id);
            self.store.mark_found(id);
            Ok(())
        } else if self.store.found_contains(id) {
            let mut message = String::from_str("duplicated category id ");
            message.append(id);
            Err(Error::from_string(ErrorKind::DuplicatedId, message))
        } else {
            let mut message = String::from_str("category id ");
            message.append(id);
            message.append(" does not exist");
            Err(Error::from_string(ErrorKind::IdNotFound, message))
        }
    }

    /// To be called once every category has been tracked: fails with
    /// `IdNotTracked`, naming the leftover ids, if any ledger id was never
    /// confirmed this run.
    pub fn close(&self) -> (r: Result<(), Error>)
        requires
            self.wf(),
        ensures
            r is Ok <==> self.pending().dom().is_empty(),
            r matches Err(e) ==> e.kind == ErrorKind::IdNotTracked && e.message@
                == "some category ids were not tracked: "@ + joined(self.missing()),
    {
        if self.store.pending_is_empty() {
            return Ok(());
        }
        let mut message = String::from_str("some category ids were not tracked: ");
        let report = self.store.report_pending();
        message.append(report.as_str());
        Err(Error::from_string(ErrorKind::IdNotTracked, message))
    }
}

} // verus!
