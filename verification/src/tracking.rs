use vstd::prelude::*;
use vstd::hash_map::StringHashMap;

verus! {

/// The ids joined with a comma-space separator: "a, b, c".
pub open spec fn joined(ids: Seq<Seq<char>>) -> Seq<char>
    decreases ids.len(),
{
    if ids.len() == 0 {
        Seq::empty()
    } else if ids.len() == 1 {
        ids[0]
    } else {
        joined(ids.drop_last()) + ", "@ + ids.last()
    }
}

/// Among the first `n` seeded ids, those still in `dom`, in seeding order.
pub open spec fn still_pending_prefix(
    seeded: Seq<Seq<char>>,
    dom: Set<Seq<char>>,
    n: int,
) -> Seq<Seq<char>>
    decreases n,
{
    if n <= 0 {
        Seq::empty()
    } else {
        still_pending_prefix(seeded, dom, n - 1) + if dom.contains(seeded[n - 1]) {
            seq![seeded[n - 1]]
        } else {
            Seq::empty()
        }
    }
}

/// The pending map after the ids have been tracked in order.
pub open spec fn after_tracking<V>(
    pending: Map<Seq<char>, V>,
    ids: Seq<Seq<char>>,
) -> Map<Seq<char>, V>
    decreases ids.len(),
{
    if ids.len() == 0 {
        pending
    } else {
        after_tracking(pending, ids.drop_last()).remove(ids.last())
    }
}

/// Whether tracking the ids in order succeeds: each id must still be
/// pending at its turn.
pub open spec fn track_ids_ok<V>(pending: Map<Seq<char>, V>, ids: Seq<Seq<char>>) -> bool
    decreases ids.len(),
{
    if ids.len() == 0 {
        true
    } else {
        track_ids_ok(pending, ids.drop_last()) && after_tracking(
            pending,
            ids.drop_last(),
        ).contains_key(ids.last())
    }
}

/// The confirmed-id set after the ids have been tracked in order.
pub open spec fn found_after(found: Set<Seq<char>>, ids: Seq<Seq<char>>) -> Set<Seq<char>>
    decreases ids.len(),
{
    if ids.len() == 0 {
        found
    } else {
        found_after(found, ids.drop_last()).insert(ids.last())
    }
}

proof fn lemma_to_set_push(s: Seq<Seq<char>>, x: Seq<char>)
    ensures
        s.push(x).to_set() =~= s.to_set().insert(x),
{
    assert forall|y: Seq<char>| s.push(x).to_set().contains(y) implies s.to_set().insert(
        x,
    ).contains(y) by {
        let i = choose|i: int| 0 <= i < s.push(x).len() && s.push(x)[i] == y;
        if i < s.len() {
            assert(s[i] == y);
        }
    }
    assert forall|y: Seq<char>| s.to_set().insert(x).contains(y) implies s.push(
        x,
    ).to_set().contains(y) by {
        if y == x {
            assert(s.push(x)[s.len() as int] == y);
        } else {
            let i = choose|i: int| 0 <= i < s.len() && s[i] == y;
            assert(s.push(x)[i] == y);
        }
    }
}

/// After tracking, exactly the tracked ids are gone from the pending map.
pub proof fn lemma_after_tracking_dom<V>(pending: Map<Seq<char>, V>, ids: Seq<Seq<char>>)
    ensures
        after_tracking(pending, ids).dom() =~= pending.dom().difference(ids.to_set()),
    decreases ids.len(),
{
    if ids.len() == 0 {
        assert(ids.to_set() =~= Set::<Seq<char>>::empty());
    } else {
        lemma_after_tracking_dom(pending, ids.drop_last());
        lemma_to_set_push(ids.drop_last(), ids.last());
        assert(ids.drop_last().push(ids.last()) =~= ids);
    }
}

/// Tracking distinct ids against a ledger that holds exactly those ids
/// confirms every one of them and leaves nothing pending: generating any
/// number of distinct ids and tracking them all is accepted, and closing
/// the tracker afterwards finds nothing missing.
pub proof fn lemma_track_all_seeded<V>(pending: Map<Seq<char>, V>, ids: Seq<Seq<char>>)
    requires
        ids.no_duplicates(),
        pending.dom() =~= ids.to_set(),
    ensures
        track_ids_ok(pending, ids),
        after_tracking(pending, ids).dom().is_empty(),
    decreases ids.len(),
{
    lemma_after_tracking_dom(pending, ids);
    assert(after_tracking(pending, ids).dom() =~= Set::<Seq<char>>::empty());
    lemma_track_all_seeded_prefix(pending, ids, ids.len() as int);
    assert(ids.take(ids.len() as int) =~= ids);
}

/// Every prefix of a distinct, fully seeded id list tracks successfully.
proof fn lemma_track_all_seeded_prefix<V>(pending: Map<Seq<char>, V>, ids: Seq<Seq<char>>, k: int)
    requires
        ids.no_duplicates(),
        pending.dom() =~= ids.to_set(),
        0 <= k <= ids.len(),
    ensures
        track_ids_ok(pending, ids.take(k)),
    decreases k,
{
    if k > 0 {
        lemma_track_all_seeded_prefix(pending, ids, k - 1);
        assert(ids.take(k).drop_last() =~= ids.take(k - 1));
        assert(ids.take(k).last() == ids[k - 1]);
        lemma_after_tracking_dom(pending, ids.take(k - 1));
        assert(pending.dom().contains(ids[k - 1])) by {
            assert(ids.to_set().contains(ids[k - 1]));
        }
        assert(!ids.take(k - 1).to_set().contains(ids[k - 1])) by {
            if ids.take(k - 1).to_set().contains(ids[k - 1]) {
                let j = choose|j: int|
                    0 <= j < ids.take(k - 1).len() && #[trigger] ids.take(k - 1)[j] == ids[k
                        - 1];
                assert(ids[j] == ids[k - 1]);
            }
        }
        assert(after_tracking(pending, ids.take(k - 1)).dom().contains(ids[k - 1]));
    }
}

/// A confirmed id cannot be confirmed again: once an id moves from the
/// pending map to the confirmed set, it is no longer pending and is
/// recorded as already seen, so a second confirmation of the same id can
/// only be reported as a duplicate under the trackers' contracts.
pub proof fn lemma_second_track_is_duplicate<V>(
    pending: Map<Seq<char>, V>,
    found: Set<Seq<char>>,
    id: Seq<char>,
)
    requires
        pending.contains_key(id),
    ensures
        !pending.remove(id).contains_key(id),
        found.insert(id).contains(id),
{
}

/// Shared core of the id trackers: the pending ids seeded from the ledger
/// (with a payload each), the ids already confirmed this run, and the
/// seeding order, so that the leftovers can be reported deterministically.
#[verifier::reject_recursive_types(V)]
pub struct IdStore<V> {
    pending: StringHashMap<V>,
    found: StringHashMap<bool>,
    seeded: Vec<String>,
}

impl<V> IdStore<V> {
    pub closed spec fn pending_map(&self) -> Map<Seq<char>, V> {
        self.pending@
    }

    pub closed spec fn found_ids(&self) -> Set<Seq<char>> {
        self.found@.dom()
    }

    pub closed spec fn seeded_ids(&self) -> Seq<Seq<char>> {
        self.seeded@.map_values(|s: String| s@)
    }

    /// Every pending id was seeded, so `report_pending` can list the leftovers.
    pub closed spec fn wf(&self) -> bool {
        forall|k: Seq<char>|
            self.pending@.dom().contains(k) ==> #[trigger] self.seeded_ids().contains(k)
    }

    /// The seeded ids never confirmed this run, in seeding order: what the
    /// pending map and the seeding order jointly determine.
    pub open spec fn missing_ids(&self) -> Seq<Seq<char>> {
        still_pending_prefix(
            self.seeded_ids(),
            self.pending_map().dom(),
            self.seeded_ids().len() as int,
        )
    }

    pub fn new() -> (store: IdStore<V>)
        ensures
            store.pending_map() == Map::<Seq<char>, V>::empty(),
            store.found_ids() == Set::<Seq<char>>::empty(),
            store.seeded_ids() == Seq::<Seq<char>>::empty(),
            store.wf(),
    {
        let store = IdStore {
            pending: StringHashMap::new(),
            found: StringHashMap::new(),
            seeded: Vec::new(),
        };
        proof {
            assert(store.seeded_ids() =~= Seq::<Seq<char>>::empty());
            assert(store.found_ids() =~= Set::<Seq<char>>::empty());
        }
        store
    }

    /// Registers a ledger id as pending for this run.
    pub fn seed(&mut self, id: String, payload: V)
        ensures
            final(self).pending_map() == old(self).pending_map().insert(id@, payload),
            final(self).found_ids() == old(self).found_ids(),
            final(self).seeded_ids() == old(self).seeded_ids().push(id@),
            old(self).wf() ==> final(self).wf(),
    {
        self.seeded.push(id.clone());
        self.pending.insert(id, payload);
        proof {
            assert forall|k: Seq<char>|
                old(self).seeded_ids().contains(k) implies self.seeded_ids().contains(k) by {
                let i = choose|i: int|
                    0 <= i < old(self).seeded_ids().len() && old(self).seeded_ids()[i] == k;
                assert(self.seeded_ids()[i] == k);
            };
            assert(self.seeded_ids()[self.seeded@.len() - 1] == self.seeded@.last()@);
            assert(self.seeded_ids() =~= old(self).seeded_ids().push(id@));
        }
    }

    pub fn pending_contains(&self, id: &str) -> (r: bool)
        ensures
            r == self.pending_map().contains_key(id@),
    {
        self.pending.contains_key(id)
    }

    pub fn get_pending<'a>(&'a self, id: &str) -> (r: Option<&'a V>)
        ensures
            match r {
                Some(v) => self.pending_map().contains_key(id@) && *v == self.pending_map()[id@],
                None => !self.pending_map().contains_key(id@),
            },
    {
        self.pending.get(id)
    }

    pub fn remove_pending(&mut self, id: &str)
        ensures
            final(self).pending_map() == old(self).pending_map().remove(id@),
            final(self).found_ids() == old(self).found_ids(),
            final(self).seeded_ids() == old(self).seeded_ids(),
            old(self).wf() ==> final(self).wf(),
    {
        self.pending.remove(id);
    }

    pub fn mark_found(&mut self, id: &str)
        ensures
            final(self).found_ids() == old(self).found_ids().insert(id@),
            final(self).pending_map() == old(self).pending_map(),
            final(self).seeded_ids() == old(self).seeded_ids(),
            old(self).wf() ==> final(self).wf(),
    {
        self.found.insert(id.to_owned(), true);
        proof {
            assert(self.found_ids() =~= old(self).found_ids().insert(id@));
        }
    }

    pub fn found_contains(&self, id: &str) -> (r: bool)
        ensures
            r == self.found_ids().contains(id@),
    {
        self.found.contains_key(id)
    }

    pub fn pending_is_empty(&self) -> (r: bool)
        ensures
            r == self.pending_map().dom().is_empty(),
    {
        self.pending.is_empty()
    }

    /// Lists the still-pending ids, in seeding order, as "a, b, c".
    pub fn report_pending(&self) -> (r: String)
        requires
            self.wf(),
        ensures
            r@ == joined(self.missing_ids()),
    {
        let mut message = String::new();
        let mut first: bool = true;
        let mut i: usize = 0;
        while i < self.seeded.len()
            invariant
                0 <= i <= self.seeded@.len(),
                message@ == joined(
                    still_pending_prefix(self.seeded_ids(), self.pending@.dom(), i as int),
                ),
                first <==> still_pending_prefix(
                    self.seeded_ids(),
                    self.pending@.dom(),
                    i as int,
                ).len() == 0,
            decreases self.seeded@.len() - i,
        {
            let id = &self.seeded[i];
            proof {
                assert(self.seeded_ids()[i as int] == self.seeded@[i as int]@);
            }
            if self.pending.contains_key(id.as_str()) {
                let ghost prev = still_pending_prefix(
                    self.seeded_ids(),
                    self.pending@.dom(),
                    i as int,
                );
                let ghost next = still_pending_prefix(
                    self.seeded_ids(),
                    self.pending@.dom(),
                    i as int + 1,
                );
                proof {
                    assert(next =~= prev.push(self.seeded@[i as int]@));
                    assert(next.drop_last() =~= prev);
                }
                if !first {
                    message.append(", ");
                }
                message.append(id.as_str());
                first = false;
            } else {
                proof {
                    assert(still_pending_prefix(
                        self.seeded_ids(),
                        self.pending@.dom(),
                        i as int + 1,
                    ) =~= still_pending_prefix(self.seeded_ids(), self.pending@.dom(), i as int));
                }
            }
            i = i + 1;
        }
        message
    }
}

} // verus!
