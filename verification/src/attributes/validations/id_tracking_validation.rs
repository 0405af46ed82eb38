use vstd::prelude::*;

use crate::attributes::attribute::Attribute;
use crate::attributes::attribute_id_tracker::{
    attribute_entries_map, attribute_entry_ids, AttributeIdTracker,
};
use crate::attributes::attribute_tracker_io::AttributeEntry;
use crate::error::{Error, ErrorKind};
use crate::tracking::{after_tracking, found_after, joined, still_pending_prefix, track_ids_ok};

verus! {

/// The ids of a sequence of attributes, in order.
pub open spec fn attribute_ids(attrs: Seq<Attribute>) -> Seq<Seq<char>> {
    attrs.map_values(|a: Attribute| a.id@)
}

/// Confirms every attribute id seen this run against the ledger, and at
/// completion reports ledger ids never seen.
pub struct IdTrackingValidation {
    attribute_id_tracker: AttributeIdTracker,
}

impl IdTrackingValidation {
    pub closed spec fn pending(&self) -> Map<Seq<char>, String> {
        self.attribute_id_tracker.pending()
    }

    pub closed spec fn found(&self) -> Set<Seq<char>> {
        self.attribute_id_tracker.found()
    }

    /// The ledger ids in seeding order.
    pub closed spec fn seeded(&self) -> Seq<Seq<char>> {
        self.attribute_id_tracker.seeded()
    }

    /// The pending ids never confirmed, in seeding order: determined by
    /// the seeding order and the pending map.
    pub open spec fn missing(&self) -> Seq<Seq<char>> {
        still_pending_prefix(self.seeded(), self.pending().dom(), self.seeded().len() as int)
    }

    pub closed spec fn wf(&self) -> bool {
        self.attribute_id_tracker.wf()
    }

    pub fn new(entries: &Vec<AttributeEntry>) -> (v: IdTrackingValidation)
        ensures
            v.wf(),
            v.pending() == attribute_entries_map(entries@),
            v.found() == Set::<Seq<char>>::empty(),
            v.seeded() == attribute_entry_ids(entries@),
    {
        IdTrackingValidation { attribute_id_tracker: AttributeIdTracker::new(entries) }
    }

    /// Tracks the ids of one category's attributes, in order; fails at the
    /// first id that is duplicated or unknown to the ledger.
    pub fn partially_validate(&mut self, attributes: &[Attribute]) -> (r: Result<(), Error>)
        requires
            old(self).wf(),
        ensures
            final(self).wf(),
            final(self).seeded() == old(self).seeded(),
            r is Ok <==> track_ids_ok(old(self).pending(), attribute_ids(attributes@)),
            r is Ok ==> final(self).pending() == after_tracking(
                old(self).pending(),
                attribute_ids(attributes@),
            ) && final(self).found() == found_after(
                old(self).found(),
                attribute_ids(attributes@),
            ),
            r matches Err(e) ==> e.kind == ErrorKind::DuplicatedId || e.kind
                == ErrorKind::IdNotFound,
    {
        let ghost ids = attribute_ids(attributes@);
        let mut i: usize = 0;
        while i < attributes.len()
            invariant
                0 <= i <= attributes@.len(),
                self.wf(),
                self.seeded() == old(self).seeded(),
                ids == attribute_ids(attributes@),
                track_ids_ok(old(self).pending(), ids.take(i as int)),
                self.pending() == after_tracking(old(self).pending(), ids.take(i as int)),
                self.found() == found_after(old(self).found(), ids.take(i as int)),
            decreases attributes@.len() - i,
        {
            proof {
                assert(ids.take(i as int + 1).drop_last() =~= ids.take(i as int));
                assert(ids.take(i as int + 1).last() == ids[i as int]);
            }
            match self.attribute_id_tracker.track_attribute(attributes[i].id.as_str()) {
                Ok(_) => (),
                Err(error) => {
                    assert(!track_ids_ok(old(self).pending(), ids.take(i as int + 1)));
                    proof {
                        track_ids_ok_prefix_fails(old(self).pending(), ids, i as int + 1);
                    }
                    return Err(error);
                },
            }
            i = i + 1;
        }
        proof {
            assert(ids.take(ids.len() as int) =~= ids);
        }
        Ok(())
    }

    /// Succeeds exactly when every ledger id has been confirmed this run;
    /// otherwise fails with `IdNotTracked`, naming the leftover ids.
    pub fn complete(&mut self) -> (r: Result<(), Error>)
        requires
            old(self).wf(),
        ensures
            *final(self) == *old(self),
            r is Ok <==> old(self).pending().dom().is_empty(),
            r matches Err(e) ==> e.kind == ErrorKind::IdNotTracked && e.message@
                == "some attribute ids were not tracked: "@ + joined(old(self).missing()),
    {
        self.attribute_id_tracker.close()
    }
}

/// A tracking sequence with a failing prefix fails as a whole.
proof fn track_ids_ok_prefix_fails<V>(pending: Map<Seq<char>, V>, ids: Seq<Seq<char>>, n: int)
    requires
        0 <= n <= ids.len(),
        !track_ids_ok(pending, ids.take(n)),
    ensures
        !track_ids_ok(pending, ids),
    decreases ids.len() - n,
{
    if n < ids.len() {
        assert(ids.take(n + 1).drop_last() =~= ids.take(n));
        track_ids_ok_prefix_fails(pending, ids, n + 1);
    } else {
        assert(ids.take(n) =~= ids);
    }
}

} // verus!
