use vstd::prelude::*;

use crate::categories::source_category::SourceCategory;
use crate::error::{Error, ErrorKind};
use crate::tracking::{joined, still_pending_prefix, IdStore};

verus! {

/// One category ledger record, in its older shape.
#[derive(Debug, Clone)]
pub struct Entry {
    pub id: String,
}

/// The pending map an entry sequence seeds.
pub open spec fn entries_map(entries: Seq<Entry>) -> Map<Seq<char>, bool>
    decreases entries.len(),
{
    if entries.len() == 0 {
        Map::empty()
    } else {
        entries_map(entries.drop_last()).insert(entries.last().id@, true)
    }
}

/// The entry ids, in ledger order.
pub open spec fn entry_ids(entries: Seq<Entry>) -> Seq<Seq<char>> {
    entries.map_values(|e: Entry| e.id@)
}

/// Reconciles partial category records against the ledger: besides
/// confirming each id at most once, it requires a referenced parent id to
/// be one the ledger knows.
pub struct IdTracker {
    store: IdStore<bool>,
}

impl IdTracker {
    /// Ledger ids not yet confirmed this run.
    pub closed spec fn pending(&self) -> Map<Seq<char>, bool> {
        self.store.pending_map()
    }

    /// Ids already confirmed this run.
    pub closed spec fn found(&self) -> Set<Seq<char>> {
        self.store.found_ids()
    }

    /// The ledger ids in seeding order.
    pub closed spec fn seeded(&self) -> Seq<Seq<char>> {
        self.store.seeded_ids()
    }

    /// The pending ids never confirmed, in seeding order: determined by
    /// the seeding order and the pending map.
    pub open spec fn missing(&self) -> Seq<Seq<char>> {
        still_pending_prefix(self.seeded(), self.pending().dom(), self.seeded().len() as int)
    }

    pub closed spec fn wf(&self) -> bool {
        self.store.wf()
    }

    pub fn new(entries: Vec<Entry>) -> (t: IdTracker)
        ensures
            t.wf(),
            t.pending() == entries_map(entries@),
            t.found() == Set::<Seq<char>>::empty(),
            t.seeded() == entry_ids(entries@),
    {
        let mut store: IdStore<bool> = IdStore::new();
        let mut i: usize = 0;
        while i < entries.len()
            invariant
                0 <= i <= entries@.len(),
                store.wf(),
                store.pending_map() == entries_map(entries@.take(i as int)),
                store.found_ids() == Set::<Seq<char>>::empty(),
                store.seeded_ids() == entry_ids(entries@.take(i as int)),
            decreases entries@.len() - i,
        {
            let entry = &entries[i];
            store.seed(entry.id.clone(), true);
            proof {
                assert(entries@.take(i + 1).drop_last() =~= entries@.take(i as int));
                assert(entries@.take(i + 1).last() == entries@[i as int]);
                assert(entry_ids(entries@.take(i + 1)) =~= entry_ids(
                    entries@.take(i as int),
                ).push(entries@[i as int].id@));
            }
            i = i + 1;
        }
        proof {
            assert(entries@.take(entries@.len() as int) =~= entries@);
        }
        IdTracker { store }
    }

    /// Tracks one partial category record against the ledger.
    ///
    /// A record without an id fails with `MissingId`. A pending id is
    /// confirmed, and a parent reference must then be an id the ledger
    /// knows (confirmed or still pending), else `ParentNotFound`. An id
    /// already confirmed fails with `DuplicatedId`; one the ledger never
    /// issued fails with `IdNotFound`.
    pub fn track_category(&mut self, category: &SourceCategory) -> (r: Result<(), Error>)
        requires
            old(self).wf(),
        ensures
            final(self).wf(),
            final(self).seeded() == old(self).seeded(),
            category.id is None ==> (r matches Err(e) && e.kind == ErrorKind::MissingId) && final(self).pending() == old(self).pending() && final(self).found() == old(self).found(),
            category.id matches Some(id) ==> {
                let key = id@;
                let moved_pending = old(self).pending().remove(key);
                let moved_found = old(self).found().insert(key);
                let parent_ok = category.parent matches Some(p) ==> moved_found.contains(p@)
                    || moved_pending.contains_key(p@);
                &&& (old(self).pending().contains_key(key) && parent_ok) ==> (r is Ok && final(self).pending() == moved_pending && final(self).found() == moved_found)
                &&& (old(self).pending().contains_key(key) && !parent_ok) ==> ((r matches Err(e)
                    && e.kind == ErrorKind::ParentNotFound) && final(self).pending()
                    == moved_pending && final(self).found() == moved_found)
                &&& (!old(self).pending().contains_key(key) && old(self).found().contains(key))
                    ==> ((r matches Err(e) && e.kind == ErrorKind::DuplicatedId) && final(self).pending() == old(self).pending() && final(self).found() == old(self).found())
                &&& (!old(self).pending().contains_key(key) && !old(self).found().contains(key))
                    ==> ((r matches Err(e) && e.kind == ErrorKind::IdNotFound) && final(self).pending() == old(self).pending() && final(self).found() == old(self).found())
            },
    {
        match &category.id {
            Some(id) => {
                if self.store.pending_contains(id.as_str()) {
                    self.store.remove_pending(id.as_str());
                    self.store.mark_found(id.as_str());
                    self.track_parent(&category.parent)
                } else if self.store.found_contains(id.as_str()) {
                    let mut message = String::from_str("duplicated category id ");
                    message.append(id.as_str());
                    Err(Error::from_string(ErrorKind::DuplicatedId, message))
                } else {
                    let mut message = String::from_str("category id ");
                    message.append(id.as_str());
                    message.append(" does not exist");
                    Err(Error::from_string(ErrorKind::IdNotFound, message))
                }
            },
            None => Err(Error::new(ErrorKind::MissingId, "category has no id")),
        }
    }

    fn track_parent(&mut self, parent: &Option<String>) -> (r: Result<(), Error>)
        requires
            old(self).wf(),
        ensures
            final(self).wf(),
            final(self).seeded() == old(self).seeded(),
            *final(self) == *old(self),
            r is Ok <==> (parent matches Some(p) ==> old(self).found().contains(p@) || old(self).pending().contains_key(p@)),
            r matches Err(e) ==> e.kind == ErrorKind::ParentNotFound,
    {
        match parent {
            Some(p) => {
                if !self.store.found_contains(p.as_str()) && !self.store.pending_contains(
                    p.as_str(),
                ) {
                    return Err(Error::new(ErrorKind::ParentNotFound, "parent category not found"));
                }
                Ok(())
            },
            None => Ok(()),
        }
    }

    /// To be called once every category has been tracked: fails with
    /// `IdNotTracked`, naming the leftover ids, if any ledger id was never
    /// confirmed this run.
    pub fn close(&self) -> (r: Result<(), Error>)
        requires
            self.wf(),
        ensures
            r is Ok <==> self.pending().dom().is_empty(),
            r matches Err(e) ==> e.kind == ErrorKind::IdNotTracked && e.message@
                == "some category ids were not tracked: "@ + joined(self.missing()),
    {
        if self.store.pending_is_empty() {
            return Ok(());
        }
        let mut message = String::from_str("some category ids were not tracked: ");
        let report = self.store.report_pending();
        message.append(report.as_str());
        Err(Error::from_string(ErrorKind::IdNotTracked, message))
    }
}

} // verus!
