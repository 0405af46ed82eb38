use vstd::prelude::*;

use crate::categories::category::Category;
use crate::categories::category_id_tracker::{category_entries_map, CategoryEntry, CategoryIdTracker};
use crate::error::{Error, ErrorKind};
use crate::tracking::{after_tracking, found_after, track_ids_ok};

verus! {

/// The ids of an arena of categories, in arena order.
pub open spec fn category_ids(nodes: Seq<Category>) -> Seq<Seq<char>> {
    nodes.map_values(|c: Category| c.id@)
}

/// Confirms every category id in the forest against the ledger, and
/// reports ledger ids that no category carries any more.
pub struct IdTrackingValidation {}

impl IdTrackingValidation {
    pub fn new() -> (v: IdTrackingValidation) {
        IdTrackingValidation {  }
    }

    /// Tracks one category's id.
    pub fn track_category(
        &self,
        category_id_tracker: &mut CategoryIdTracker,
        category: &Category,
    ) -> (r: Result<(), Error>)
        requires
            old(category_id_tracker).wf(),
        ensures
            final(category_id_tracker).wf(),
            old(category_id_tracker).pending().contains_key(category.id@) ==> r is Ok && final(category_id_tracker).pending() == old(category_id_tracker).pending().remove(category.id@) && final(category_id_tracker).found() == old(category_id_tracker).found().insert(category.id@),
            !old(category_id_tracker).pending().contains_key(category.id@) ==> (r matches Err(e)
                && (e.kind == ErrorKind::DuplicatedId || e.kind == ErrorKind::IdNotFound)) && final(category_id_tracker).pending() == old(category_id_tracker).pending() && final(category_id_tracker).found()
                == old(category_id_tracker).found(),
    {
        category_id_tracker.track_category(category.id.as_str())
    }

    /// Walks the whole forest, confirming every id, then closes the
    /// tracker: the run passes exactly when the forest's ids are distinct,
    /// all known to the ledger, and jointly exhaust it.
    pub fn validate(&self, entries: Vec<CategoryEntry>, nodes: &Vec<Category>) -> (r: Result<(), Error>)
        ensures
            r is Ok <==> track_ids_ok(category_entries_map(entries@), category_ids(nodes@))
                && after_tracking(
                category_entries_map(entries@),
                category_ids(nodes@),
            ).dom().is_empty(),
            r matches Err(e) ==> e.kind == ErrorKind::DuplicatedId || e.kind
                == ErrorKind::IdNotFound || e.kind == ErrorKind::IdNotTracked,
    {
        let mut category_id_tracker = CategoryIdTracker::new(entries);
        let ghost initial = category_id_tracker.pending();
        let ghost ids = category_ids(nodes@);
        let mut i: usize = 0;
        while i < nodes.len()
            invariant
                0 <= i <= nodes@.len(),
                category_id_tracker.wf(),
                initial == category_entries_map(entries@),
                ids == category_ids(nodes@),
                track_ids_ok(initial, ids.take(i as int)),
                category_id_tracker.pending() == after_tracking(initial, ids.take(i as int)),
                category_id_tracker.found() == found_after(
                    Set::<Seq<char>>::empty(),
                    ids.take(i as int),
                ),
            decreases nodes@.len() - i,
        {
            proof {
                assert(ids.take(i as int + 1).drop_last() =~= ids.take(i as int));
                assert(ids.take(i as int + 1).last() == ids[i as int]);
            }
            match self.track_category(&mut category_id_tracker, &nodes[i]) {
                Ok(_) => (),
                Err(error) => {
                    assert(!track_ids_ok(initial, ids.take(i as int + 1)));
                    proof {
                        track_prefix_fails(initial, ids, i as int + 1);
                    }
                    return Err(error);
                },
            }
            i = i + 1;
        }
        proof {
            assert(ids.take(ids.len() as int) =~= ids);
        }
        match category_id_tracker.close() {
            Ok(_) => Ok(()),
            Err(error) => Err(error),
        }
    }
}

/// A tracking sequence with a failing prefix fails as a whole.
proof fn track_prefix_fails<V>(pending: Map<Seq<char>, V>, ids: Seq<Seq<char>>, n: int)
    requires
        0 <= n <= ids.len(),
        !track_ids_ok(pending, ids.take(n)),
    ensures
        !track_ids_ok(pending, ids),
    decreases ids.len() - n,
{
    if n < ids.len() {
        assert(ids.take(n + 1).drop_last() =~= ids.take(n));
        track_prefix_fails(pending, ids, n + 1);
    } else {
        assert(ids.take(n) =~= ids);
    }
}

} // verus!
