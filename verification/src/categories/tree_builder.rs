use vstd::prelude::*;
use vstd::hash_map::StringHashMap;

use crate::attributes::source_attribute::SourceAttribute;
use crate::categories::category::{node_wf, nodes_wf, roots_wf, Category};
use crate::categories::source_category::SourceCategory;
use crate::error::{Error, ErrorKind};

verus! {

/// Source `j` is the parent that source `i` references: `i`'s parent id
/// equals `j`'s id.
pub open spec fn parent_link(
    sources: Seq<SourceCategory>,
    parent_ids: Seq<Option<String>>,
    i: int,
    j: int,
) -> bool {
    &&& 0 <= i < sources.len()
    &&& 0 <= j < sources.len()
    &&& parent_ids[i] matches Some(p) && (sources[j].id matches Some(q) && p@ == q@)
}

/// Source `i` reaches a root in at most `n` parent steps.
pub open spec fn depth_bounded(
    sources: Seq<SourceCategory>,
    parent_ids: Seq<Option<String>>,
    i: int,
    n: nat,
) -> bool
    decreases n,
{
    if !(0 <= i < sources.len()) {
        false
    } else if parent_ids[i] is None {
        true
    } else if n == 0 {
        false
    } else {
        exists|j: int|
            parent_link(sources, parent_ids, i, j) && depth_bounded(
                sources,
                parent_ids,
                j,
                (n - 1) as nat,
            )
    }
}

/// Source `i` reaches a root in finitely many parent steps.
pub open spec fn grounded(
    sources: Seq<SourceCategory>,
    parent_ids: Seq<Option<String>>,
    i: int,
) -> bool {
    exists|n: nat| depth_bounded(sources, parent_ids, i, n)
}

/// Every source reaches a root: the fragment set forms a forest, whatever
/// order the fragments were ingested in.
pub open spec fn forest_buildable(
    sources: Seq<SourceCategory>,
    parent_ids: Seq<Option<String>>,
) -> bool {
    forall|i: int| 0 <= i < sources.len() ==> grounded(sources, parent_ids, i)
}

/// Every attribute of the source carries an id.
pub open spec fn source_attrs_have_ids(src: SourceCategory) -> bool {
    forall|j: int| 0 <= j < src.attributes@.len() ==> (#[trigger] src.attributes@[j].id) is Some
}

pub open spec fn all_attrs_have_ids(sources: Seq<SourceCategory>) -> bool {
    forall|i: int| 0 <= i < sources.len() ==> source_attrs_have_ids(#[trigger] sources[i])
}

/// The node carries exactly what the source resolves to.
pub open spec fn resolved_fields_match(src: SourceCategory, node: Category) -> bool {
    &&& node.id == src.id.unwrap()
    &&& node.name == src.name
    &&& node.selectable_as_last == src.selectable_as_last.unwrap_or(false)
    &&& node.attributes@.len() == src.attributes@.len()
    &&& forall|j: int|
        0 <= j < src.attributes@.len() ==> node.attributes@[j] == src.attributes@[
            j
        ].spec_to_attribute()
}

/// `order` lists, for each node in the arena, the source it was built from:
/// a bijection between sources and nodes that preserves the resolved fields.
pub open spec fn source_permutation(
    sources: Seq<SourceCategory>,
    nodes: Seq<Category>,
    order: Seq<int>,
) -> bool {
    &&& order.len() == nodes.len()
    &&& nodes.len() == sources.len()
    &&& (forall|k: int| 0 <= k < order.len() ==> 0 <= #[trigger] order[k] < sources.len())
    &&& (forall|k1: int, k2: int|
        0 <= k1 < k2 < order.len() ==> order[k1] != order[k2])
    &&& (forall|k: int|
        0 <= k < order.len() ==> resolved_fields_match(sources[#[trigger] order[k]], nodes[k]))
}

/// Node `k`'s links mirror its source's resolved parent reference: a
/// parentless source gives a parentless node, and a parent-having source
/// gives a node whose parent slot holds the node carrying the referenced
/// id, with the child recorded in that parent's children list.
pub open spec fn node_edges_match(
    sources: Seq<SourceCategory>,
    parent_ids: Seq<Option<String>>,
    nodes: Seq<Category>,
    order: Seq<int>,
    k: int,
) -> bool {
    &&& ((nodes[k].parent) is None <==> (parent_ids[order[k]]) is None)
    &&& (nodes[k].parent matches Some(p) ==> (p as int) < nodes.len() && (
    parent_ids[order[k]] matches Some(pid) && nodes[p as int].id@ == pid@) && nodes[
        p as int
    ].children@.contains(k as usize))
}

/// How many entries are still false.
pub open spec fn count_unattached(s: Seq<bool>) -> nat
    decreases s.len(),
{
    if s.len() == 0 {
        0
    } else {
        count_unattached(s.drop_last()) + if s.last() {
            0nat
        } else {
            1nat
        }
    }
}

proof fn lemma_count_update_true(s: Seq<bool>, i: int)
    requires
        0 <= i < s.len(),
        !s[i],
    ensures
        count_unattached(s) >= 1,
        count_unattached(s.update(i, true)) == count_unattached(s) - 1,
    decreases s.len(),
{
    let t = s.update(i, true);
    if i == s.len() - 1 {
        assert(t.drop_last() =~= s.drop_last());
    } else {
        lemma_count_update_true(s.drop_last(), i);
        assert(t.drop_last() =~= s.drop_last().update(i, true));
    }
}

proof fn lemma_count_zero_all_true(s: Seq<bool>, i: int)
    requires
        count_unattached(s) == 0,
        0 <= i < s.len(),
    ensures
        s[i],
    decreases s.len(),
{
    if i < s.len() - 1 {
        lemma_count_zero_all_true(s.drop_last(), i);
    }
}

/// When no unattached source is a root and no unattached source's parent
/// is attached, no unattached source is grounded.
proof fn lemma_stuck_depth(
    sources: Seq<SourceCategory>,
    parent_ids: Seq<Option<String>>,
    attached: Seq<bool>,
    i: int,
    n: nat,
)
    requires
        attached.len() == sources.len(),
        parent_ids.len() == sources.len(),
        forall|i0: int|
            0 <= i0 < sources.len() && !attached[i0] ==> (#[trigger] parent_ids[i0]) is Some,
        forall|i0: int, j: int|
            0 <= i0 < sources.len() && !attached[i0] && #[trigger] parent_link(
                sources,
                parent_ids,
                i0,
                j,
            ) ==> !attached[j],
        0 <= i < sources.len(),
        !attached[i],
    ensures
        !depth_bounded(sources, parent_ids, i, n),
    decreases n,
{
    if n > 0 && depth_bounded(sources, parent_ids, i, n) {
        let j = choose|j: int|
            parent_link(sources, parent_ids, i, j) && depth_bounded(
                sources,
                parent_ids,
                j,
                (n - 1) as nat,
            );
        assert(!attached[j]);
        lemma_stuck_depth(sources, parent_ids, attached, j, (n - 1) as nat);
    }
}

/// Two parent-id lists that agree in their character sequences bound the
/// same sources to the same depth.
proof fn lemma_depth_bounded_view_eq(
    sources: Seq<SourceCategory>,
    p1: Seq<Option<String>>,
    p2: Seq<Option<String>>,
    i: int,
    n: nat,
)
    requires
        p1.len() == sources.len(),
        p2.len() == sources.len(),
        forall|t: int|
            0 <= t < sources.len() ==> ((#[trigger] p1[t]) is None <==> p2[t] is None),
        forall|t: int|
            0 <= t < sources.len() ==> ((#[trigger] p1[t]) matches Some(a) ==> (
            p2[t] matches Some(b) && a@ == b@)),
        depth_bounded(sources, p1, i, n),
    ensures
        depth_bounded(sources, p2, i, n),
    decreases n,
{
    if 0 <= i < sources.len() && !(p1[i] is None) && n > 0 {
        let j = choose|j: int|
            parent_link(sources, p1, i, j) && depth_bounded(sources, p1, j, (n - 1) as nat);
        lemma_depth_bounded_view_eq(sources, p1, p2, j, (n - 1) as nat);
        assert(parent_link(sources, p2, i, j));
    }
}

/// Whether a forest can be built depends only on the character sequences
/// of the resolved parent ids.
pub proof fn lemma_buildable_view_eq(
    sources: Seq<SourceCategory>,
    p1: Seq<Option<String>>,
    p2: Seq<Option<String>>,
)
    requires
        p1.len() == sources.len(),
        p2.len() == sources.len(),
        forall|t: int|
            0 <= t < sources.len() ==> ((#[trigger] p1[t]) is None <==> p2[t] is None),
        forall|t: int|
            0 <= t < sources.len() ==> ((#[trigger] p1[t]) matches Some(a) ==> (
            p2[t] matches Some(b) && a@ == b@)),
    ensures
        forest_buildable(sources, p1) == forest_buildable(sources, p2),
{
    assert forall|t: int|
        0 <= t < sources.len() ==> ((#[trigger] p2[t]) matches Some(a) ==> (
        p1[t] matches Some(b) && a@ == b@)) by {}
    assert forall|i: int|
        0 <= i < sources.len() && grounded(sources, p1, i) implies grounded(sources, p2, i) by {
        let n = choose|n: nat| depth_bounded(sources, p1, i, n);
        lemma_depth_bounded_view_eq(sources, p1, p2, i, n);
    }
    assert forall|i: int|
        0 <= i < sources.len() && grounded(sources, p2, i) implies grounded(sources, p1, i) by {
        let n = choose|n: nat| depth_bounded(sources, p2, i, n);
        lemma_depth_bounded_view_eq(sources, p2, p1, i, n);
    }
}

/// A list of distinct indices into `0..n` of length `n` hits every index.
proof fn lemma_perm_covers(perm: Seq<int>, n: int, i: int)
    requires
        perm.len() == n,
        forall|k: int| 0 <= k < perm.len() ==> 0 <= #[trigger] perm[k] < n,
        forall|k1: int, k2: int| 0 <= k1 < k2 < perm.len() ==> perm[k1] != perm[k2],
        0 <= i < n,
    ensures
        exists|k: int| 0 <= k < perm.len() && #[trigger] perm[k] == i,
{
    broadcast use vstd::seq_lib::seq_to_set_is_finite;

    if !(exists|k: int| 0 <= k < perm.len() && #[trigger] perm[k] == i) {
        assert(perm.no_duplicates()) by {
            assert forall|k1: int, k2: int|
                0 <= k1 < perm.len() && 0 <= k2 < perm.len() && k1 != k2 implies perm[k1]
                != perm[k2] by {
                if k1 < k2 {
                    assert(perm[k1] != perm[k2]);
                } else {
                    assert(perm[k2] != perm[k1]);
                }
            }
        }
        perm.unique_seq_to_set();
        let range = vstd::set_lib::set_int_range(0, n);
        vstd::set_lib::lemma_int_range(0, n);
        assert(perm.to_set().subset_of(range.remove(i))) by {
            assert forall|x: int| perm.to_set().contains(x) implies range.remove(i).contains(
                x,
            ) by {
                let k = choose|k: int| 0 <= k < perm.len() && perm[k] == x;
                assert(0 <= perm[k] < n);
                assert(perm[k] != i);
            }
        }
        vstd::set_lib::lemma_len_subset(perm.to_set(), range.remove(i));
        assert(range.remove(i).len() == n - 1);
        assert(false);
    }
}

/// Transfers a depth bound across a permutation of the fragments.
proof fn lemma_depth_bounded_perm(
    s1: Seq<SourceCategory>,
    p1: Seq<Option<String>>,
    s2: Seq<SourceCategory>,
    p2: Seq<Option<String>>,
    perm: Seq<int>,
    k: int,
    n: nat,
)
    requires
        p1.len() == s1.len(),
        p2.len() == s2.len(),
        s2.len() == s1.len(),
        perm.len() == s1.len(),
        forall|t: int| 0 <= t < perm.len() ==> 0 <= #[trigger] perm[t] < s1.len(),
        forall|t1: int, t2: int| 0 <= t1 < t2 < perm.len() ==> perm[t1] != perm[t2],
        forall|t: int|
            0 <= t < perm.len() ==> (#[trigger] s2[t]) == s1[perm[t]] && p2[t] == p1[perm[t]],
        0 <= k < s2.len(),
        depth_bounded(s1, p1, perm[k], n),
    ensures
        depth_bounded(s2, p2, k, n),
    decreases n,
{
    assert(s2[k] == s1[perm[k]] && p2[k] == p1[perm[k]]);
    if p1[perm[k]] is None {
    } else {
        let j1 = choose|j1: int|
            parent_link(s1, p1, perm[k], j1) && depth_bounded(s1, p1, j1, (n - 1) as nat);
        assert(parent_link(s1, p1, perm[k], j1));
        lemma_perm_covers(perm, s1.len() as int, j1);
        let k1 = choose|k1: int| 0 <= k1 < perm.len() && #[trigger] perm[k1] == j1;
        lemma_depth_bounded_perm(s1, p1, s2, p2, perm, k1, (n - 1) as nat);
        assert(s2[k1] == s1[j1] && p2[k1] == p1[j1]);
        assert(parent_link(s2, p2, k, k1));
    }
}

/// Order independence of tree building: whether the fragments can be
/// assembled into a forest does not depend on the order in which they
/// were ingested — any permutation of the records (with their resolved
/// parent ids carried along) is buildable exactly when the unpermuted one is.
pub proof fn lemma_buildable_order_independent(
    s1: Seq<SourceCategory>,
    p1: Seq<Option<String>>,
    s2: Seq<SourceCategory>,
    p2: Seq<Option<String>>,
    perm: Seq<int>,
)
    requires
        p1.len() == s1.len(),
        p2.len() == s2.len(),
        s2.len() == s1.len(),
        perm.len() == s1.len(),
        forall|t: int| 0 <= t < perm.len() ==> 0 <= #[trigger] perm[t] < s1.len(),
        forall|t1: int, t2: int| 0 <= t1 < t2 < perm.len() ==> perm[t1] != perm[t2],
        forall|t: int|
            0 <= t < perm.len() ==> (#[trigger] s2[t]) == s1[perm[t]] && p2[t] == p1[perm[t]],
    ensures
        forest_buildable(s1, p1) == forest_buildable(s2, p2),
{
    if forest_buildable(s1, p1) {
        assert forall|k: int| 0 <= k < s2.len() implies grounded(s2, p2, k) by {
            assert(grounded(s1, p1, perm[k]));
            let n = choose|n: nat| depth_bounded(s1, p1, perm[k], n);
            lemma_depth_bounded_perm(s1, p1, s2, p2, perm, k, n);
        }
    }
    if forest_buildable(s2, p2) {
        let inverse = Seq::new(
            s1.len() as nat,
            |i: int| choose|k: int| 0 <= k < perm.len() && #[trigger] perm[k] == i,
        );
        assert forall|i: int|
            0 <= i < inverse.len() implies 0 <= #[trigger] inverse[i] < s2.len() && perm[inverse[i]]
            == i by {
            lemma_perm_covers(perm, s1.len() as int, i);
        }
        assert forall|t: int|
            0 <= t < inverse.len() implies (#[trigger] s1[t]) == s2[inverse[t]] && p1[t]
            == p2[inverse[t]] by {
            assert(s2[inverse[t]] == s1[perm[inverse[t]]]);
        }
        assert forall|t1: int, t2: int|
            0 <= t1 < t2 < inverse.len() implies inverse[t1] != inverse[t2] by {
            assert(perm[inverse[t1]] == t1);
            assert(perm[inverse[t2]] == t2);
        }
        assert forall|k: int| 0 <= k < s1.len() implies grounded(s1, p1, k) by {
            assert(grounded(s2, p2, inverse[k]));
            let n = choose|n: nat| depth_bounded(s2, p2, inverse[k], n);
            lemma_depth_bounded_perm(s2, p2, s1, p1, inverse, k, n);
        }
    }
}

/// Assembles the ownership forest from sources whose ids are all assigned.
/// Sources are attached in passes, each pass attaching every source whose
/// parent is already present, so the outcome does not depend on the order
/// in which the fragments were ingested: it succeeds exactly when every
/// source reaches a root through its parent references and every attribute
/// carries an id.
pub fn build_forest(
    nodes: &mut Vec<Category>,
    roots: &mut Vec<usize>,
    sources: &Vec<SourceCategory>,
    parent_ids: &Vec<Option<String>>,
) -> (r: Result<(), Error>)
    requires
        old(nodes)@.len() == 0,
        old(roots)@.len() == 0,
        parent_ids@.len() == sources@.len(),
        forall|i: int| 0 <= i < sources@.len() ==> (#[trigger] sources@[i].id) is Some,
        sources@.len() < usize::MAX,
    ensures
        nodes_wf(final(nodes)@),
        roots_wf(final(nodes)@, final(roots)@),
        r is Ok <==> forest_buildable(sources@, parent_ids@) && all_attrs_have_ids(sources@),
        r is Ok ==> exists|order: Seq<int>|
            source_permutation(sources@, final(nodes)@, order) && (forall|k: int|
                0 <= k < order.len() ==> node_edges_match(
                    sources@,
                    parent_ids@,
                    final(nodes)@,
                    order,
                    k,
                )),
        forall|t: int|
            0 <= t < final(roots)@.len() ==> ((#[trigger] final(roots)@[t]) as int) < final(nodes)@.len() && (final(nodes)@[final(roots)@[t] as int].parent) is None,
        forall|k: int|
            0 <= k < final(nodes)@.len() && ((#[trigger] final(nodes)@[k].parent)) is None
                ==> final(roots)@.contains(k as usize),
        r matches Err(e) ==> e.kind == ErrorKind::ParentNotAvailable || e.kind
            == ErrorKind::MissingId,
{
    let source_count = sources.len();
    let mut attached: Vec<bool> = Vec::new();
    let mut f: usize = 0;
    while f < source_count
        invariant
            0 <= f <= source_count,
            attached@.len() == f,
            forall|i: int| 0 <= i < f ==> !attached@[i],
            count_unattached(attached@) == f,
        decreases source_count - f,
    {
        let ghost before = attached@;
        attached.push(false);
        proof {
            assert(attached@.drop_last() =~= before);
        }
        f = f + 1;
    }
    let mut mapping: StringHashMap<usize> = StringHashMap::new();
    let mut remaining: usize = source_count;
    let ghost mut order: Seq<int> = Seq::empty();
    while remaining > 0
        invariant
            source_count == sources@.len(),
            parent_ids@.len() == sources@.len(),
            sources@.len() < usize::MAX,
            forall|i: int| 0 <= i < sources@.len() ==> (#[trigger] sources@[i].id) is Some,
            attached@.len() == sources@.len(),
            remaining == count_unattached(attached@),
            order.len() == nodes@.len(),
            nodes@.len() + remaining == source_count,
            forall|key: Seq<char>|
                mapping@.contains_key(key) ==> (#[trigger] mapping@[key] as int) < nodes@.len(),
            forall|key: Seq<char>|
                mapping@.contains_key(key) ==> nodes@[#[trigger] mapping@[key] as int].id@ == key,
            forall|k: int|
                0 <= k < order.len() ==> node_edges_match(
                    sources@,
                    parent_ids@,
                    nodes@,
                    order,
                    k,
                ),
            forall|t: int|
                0 <= t < roots@.len() ==> ((#[trigger] roots@[t]) as int) < nodes@.len()
                    && (nodes@[roots@[t] as int].parent) is None,
            forall|k: int|
                0 <= k < nodes@.len() && ((#[trigger] nodes@[k].parent)) is None
                    ==> roots@.contains(k as usize),
            nodes_wf(nodes@),
            roots_wf(nodes@, roots@),
            forall|k: int| 0 <= k < order.len() ==> 0 <= #[trigger] order[k] < sources@.len(),
            forall|k: int| 0 <= k < order.len() ==> attached@[#[trigger] order[k]],
            forall|k1: int, k2: int| 0 <= k1 < k2 < order.len() ==> order[k1] != order[k2],
            forall|k: int|
                0 <= k < order.len() ==> resolved_fields_match(
                    sources@[#[trigger] order[k]],
                    nodes@[k],
                ),
            forall|key: Seq<char>|
                mapping@.contains_key(key) ==> (exists|i: int|
                    0 <= i < sources@.len() && attached@[i] && #[trigger] sources@[i].id.unwrap()@
                        == key),
            forall|i: int|
                0 <= i < sources@.len() && attached@[i] ==> mapping@.contains_key(
                    #[trigger] sources@[i].id.unwrap()@,
                ),
            forall|i: int|
                0 <= i < sources@.len() && attached@[i] ==> grounded(
                    sources@,
                    parent_ids@,
                    i,
                ),
            forall|i: int|
                0 <= i < sources@.len() && attached@[i] ==> source_attrs_have_ids(
                    #[trigger] sources@[i],
                ),
        decreases remaining,
    {
        let ghost pass_attached = attached@;
        let ghost pass_mapping = mapping@;
        let ghost pass_remaining = remaining as int;
        let mut progress = false;
        let mut i: usize = 0;
        while i < source_count
            invariant
                0 <= i <= source_count,
                source_count == sources@.len(),
                parent_ids@.len() == sources@.len(),
                sources@.len() < usize::MAX,
                forall|i0: int| 0 <= i0 < sources@.len() ==> (#[trigger] sources@[i0].id) is Some,
                attached@.len() == sources@.len(),
                remaining == count_unattached(attached@),
                order.len() == nodes@.len(),
                nodes@.len() + remaining == source_count,
                forall|key: Seq<char>|
                    mapping@.contains_key(key) ==> (#[trigger] mapping@[key] as int)
                        < nodes@.len(),
                forall|key: Seq<char>|
                    mapping@.contains_key(key) ==> nodes@[#[trigger] mapping@[key] as int].id@
                        == key,
                forall|k: int|
                    0 <= k < order.len() ==> node_edges_match(
                        sources@,
                        parent_ids@,
                        nodes@,
                        order,
                        k,
                    ),
                forall|t: int|
                    0 <= t < roots@.len() ==> ((#[trigger] roots@[t]) as int) < nodes@.len()
                        && (nodes@[roots@[t] as int].parent) is None,
                forall|k: int|
                    0 <= k < nodes@.len() && ((#[trigger] nodes@[k].parent)) is None
                        ==> roots@.contains(k as usize),
                progress ==> remaining < pass_remaining,
                !progress ==> remaining == pass_remaining,
                nodes_wf(nodes@),
                roots_wf(nodes@, roots@),
                forall|k: int| 0 <= k < order.len() ==> 0 <= #[trigger] order[k] < sources@.len(),
                forall|k: int| 0 <= k < order.len() ==> attached@[#[trigger] order[k]],
                forall|k1: int, k2: int| 0 <= k1 < k2 < order.len() ==> order[k1] != order[k2],
                forall|k: int|
                    0 <= k < order.len() ==> resolved_fields_match(
                        sources@[#[trigger] order[k]],
                        nodes@[k],
                    ),
                forall|key: Seq<char>|
                    mapping@.contains_key(key) ==> (exists|i0: int|
                        0 <= i0 < sources@.len() && attached@[i0] && #[trigger] sources@[
                            i0
                        ].id.unwrap()@ == key),
                forall|i0: int|
                    0 <= i0 < sources@.len() && attached@[i0] ==> mapping@.contains_key(
                        #[trigger] sources@[i0].id.unwrap()@,
                    ),
                forall|i0: int|
                    0 <= i0 < sources@.len() && attached@[i0] ==> grounded(
                        sources@,
                        parent_ids@,
                        i0,
                    ),
                forall|i0: int|
                    0 <= i0 < sources@.len() && attached@[i0] ==> source_attrs_have_ids(
                        #[trigger] sources@[i0],
                    ),
                !progress ==> attached@ == pass_attached && mapping@ == pass_mapping,
                !progress ==> (forall|i0: int|
                    0 <= i0 < i && !attached@[i0] ==> (#[trigger] parent_ids@[i0]) is Some
                        && !mapping@.contains_key(parent_ids@[i0].unwrap()@)),
            decreases source_count - i,
        {
            if !attached[i] {
                let attach_to: Option<usize> = match &parent_ids[i] {
                    None => None,
                    Some(pid) => {
                        match mapping.get(pid.as_str()) {
                            Some(parent_index) => Some(*parent_index),
                            None => {
                                i = i + 1;
                                continue ;
                            },
                        }
                    },
                };
                let source = &sources[i];
                let attributes = match SourceAttribute::to_attributes(
                    source.attributes.as_slice(),
                ) {
                    Ok(attributes) => attributes,
                    Err(error) => {
                        assert(!source_attrs_have_ids(sources@[i as int]));
                        return Err(error);
                    },
                };
                let id = match &source.id {
                    Some(id) => id.clone(),
                    None => {
                        return Err(
                            Error::new(
                                ErrorKind::MissingId,
                                "cannot create category from source with no id",
                            ),
                        );
                    },
                };
                let name = source.name.clone();
                let selectable_as_last = match source.selectable_as_last {
                    Some(value) => value,
                    None => false,
                };
                let new_index: usize;
                let ghost nodes_pre = nodes@;
                let ghost roots_pre = roots@;
                let ghost order_pre = order;
                let ghost mapping_pre = mapping@;
                match attach_to {
                    None => {
                        let ghost nodes_before = nodes@;
                        new_index = nodes.len();
                        let node = Category::new(id.clone(), name, selectable_as_last, attributes);
                        nodes.push(node);
                        roots.push(new_index);
                        proof {
                            assert(depth_bounded(sources@, parent_ids@, i as int, 0));
                            assert forall|t: int| 0 <= t < nodes@.len() implies #[trigger] node_wf(
                                nodes@,
                                t,
                            ) by {
                                if t < nodes@.len() - 1 {
                                    assert(nodes@[t] == nodes_before[t]);
                                    assert(node_wf(nodes_before, t));
                                } else {
                                    assert(nodes@[t].children@.len() == 0);
                                }
                            }
                        }
                    },
                    Some(parent_index) => {
                        match Category::new_into_parent(
                            nodes,
                            id.clone(),
                            parent_index,
                            name,
                            selectable_as_last,
                            attributes,
                        ) {
                            Ok(idx) => {
                                new_index = idx;
                            },
                            Err(error) => {
                                return Err(error);
                            },
                        }
                        proof {
                            let key = parent_ids@[i as int].unwrap()@;
                            let j = choose|j: int|
                                0 <= j < sources@.len() && attached@[j] && sources@[
                                    j
                                ].id.unwrap()@ == key;
                            assert(parent_link(sources@, parent_ids@, i as int, j));
                            let n0 = choose|n0: nat| depth_bounded(sources@, parent_ids@, j, n0);
                            assert(depth_bounded(sources@, parent_ids@, i as int, n0 + 1));
                        }
                    },
                }
                proof {
                    lemma_count_update_true(attached@, i as int);
                }
                attached.set(i, true);
                remaining = remaining - 1;
                mapping.insert(id, new_index);
                proof {
                    order = order.push(i as int);
                    assert forall|key: Seq<char>|
                        mapping@.contains_key(key) implies nodes@[
                        #[trigger] mapping@[key] as int
                    ].id@ == key by {
                        if key != id@ {
                            assert(mapping_pre[key] == mapping@[key]);
                            assert(nodes@[mapping@[key] as int] == nodes_pre[mapping@[
                                key
                            ] as int] || (attach_to matches Some(p) && mapping@[key] == p));
                        }
                    }
                    assert forall|t: int|
                        0 <= t < roots@.len() implies ((#[trigger] roots@[t]) as int)
                        < nodes@.len() && (nodes@[roots@[t] as int].parent) is None by {
                        if t < roots_pre.len() {
                            assert(roots@[t] == roots_pre[t]);
                            assert(nodes@[roots@[t] as int].parent == nodes_pre[roots@[
                                t
                            ] as int].parent);
                        }
                    }
                    assert forall|k: int|
                        0 <= k < nodes@.len() && ((#[trigger] nodes@[k].parent)) is None
                        implies roots@.contains(k as usize) by {
                        if k < nodes_pre.len() {
                            assert(nodes@[k].parent == nodes_pre[k].parent);
                            let t = choose|t: int|
                                0 <= t < roots_pre.len() && #[trigger] roots_pre[t] == (
                                k as usize);
                            assert(roots@[t] == k as usize);
                        } else {
                            if attach_to is None {
                                assert(roots@[roots@.len() - 1] == k as usize);
                            }
                        }
                    }
                    assert forall|k: int|
                        0 <= k < order.len() implies node_edges_match(
                        sources@,
                        parent_ids@,
                        nodes@,
                        order,
                        k,
                    ) by {
                        if k < order_pre.len() {
                            assert(order[k] == order_pre[k]);
                            assert(node_edges_match(
                                sources@,
                                parent_ids@,
                                nodes_pre,
                                order_pre,
                                k,
                            ));
                            assert(nodes@[k].parent == nodes_pre[k].parent);
                            if nodes_pre[k].parent is Some {
                                let p0 = nodes_pre[k].parent.unwrap();
                                assert(nodes@[p0 as int].id == nodes_pre[p0 as int].id);
                                if nodes_pre[p0 as int].children@.contains(k as usize) {
                                    let c = choose|c: int|
                                        0 <= c < nodes_pre[p0 as int].children@.len()
                                            && #[trigger] nodes_pre[p0 as int].children@[c] == (
                                        k as usize);
                                    assert(nodes@[p0 as int].children@[c] == (k as usize));
                                }
                            }
                        } else {
                            assert(order[k] == i as int);
                            assert(k == nodes@.len() - 1);
                            match attach_to {
                                Some(parent_index) => {
                                    assert(nodes@[k].parent == Some(parent_index));
                                    assert(nodes_pre[parent_index as int].id@ == parent_ids@[
                                        i as int
                                    ].unwrap()@);
                                    assert(nodes@[parent_index as int].id == nodes_pre[
                                        parent_index as int
                                    ].id);
                                    assert(nodes@[parent_index as int].children@.last() == (
                                    k as usize));
                                },
                                None => {
                                    assert(nodes@[k].parent is None);
                                },
                            }
                        }
                    }
                }
                progress = true;
            }
            i = i + 1;
        }
        if !progress {
            proof {
                assert forall|i0: int|
                    0 <= i0 < sources@.len() && !attached@[i0] implies !grounded(
                    sources@,
                    parent_ids@,
                    i0,
                ) by {
                    assert forall|i1: int, j: int|
                        0 <= i1 < sources@.len() && !attached@[i1] && #[trigger] parent_link(
                            sources@,
                            parent_ids@,
                            i1,
                            j,
                        ) implies !attached@[j] by {
                        if attached@[j] {
                            assert(mapping@.contains_key(sources@[j].id.unwrap()@));
                        }
                    }
                    if grounded(sources@, parent_ids@, i0) {
                        let n0 = choose|n0: nat| depth_bounded(sources@, parent_ids@, i0, n0);
                        lemma_stuck_depth(sources@, parent_ids@, attached@, i0, n0);
                    }
                }
            }
            proof {
                lemma_count_positive_some_false(attached@);
                let w = choose|i0: int| 0 <= i0 < attached@.len() && !attached@[i0];
                assert(!grounded(sources@, parent_ids@, w));
                assert(!forest_buildable(sources@, parent_ids@));
            }
            return Err(
                Error::new(
                    ErrorKind::ParentNotAvailable,
                    "some categories reference a parent that is not available",
                ),
            );
        }
    }
    proof {
        assert forall|i0: int| 0 <= i0 < sources@.len() implies attached@[i0] by {
            lemma_count_zero_all_true(attached@, i0);
        }
        assert forall|i0: int| 0 <= i0 < sources@.len() implies grounded(
            sources@,
            parent_ids@,
            i0,
        ) by {
            assert(attached@[i0]);
        }
        assert forall|i0: int| 0 <= i0 < sources@.len() implies source_attrs_have_ids(
            #[trigger] sources@[i0],
        ) by {
            assert(attached@[i0]);
        }
        assert(source_permutation(sources@, nodes@, order));
    }
    Ok(())
}

proof fn lemma_count_positive_some_false(s: Seq<bool>)
    requires
        count_unattached(s) > 0,
    ensures
        exists|i: int| 0 <= i < s.len() && !s[i],
    decreases s.len(),
{
    if s.len() > 0 {
        if !s.last() {
            assert(!s[s.len() - 1]);
        } else {
            lemma_count_positive_some_false(s.drop_last());
            let i = choose|i: int| 0 <= i < s.drop_last().len() && !s.drop_last()[i];
            assert(!s[i]);
        }
    }
}

} // verus!
