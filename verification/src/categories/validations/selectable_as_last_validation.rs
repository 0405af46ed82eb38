use vstd::prelude::*;

use crate::categories::category::{node_wf, nodes_wf, roots_wf, Category};
use crate::error::{
    contains_seq, lemma_append_contains_left, lemma_append_contains_right, lemma_contains_self,
    Error, ErrorKind,
};

verus! {

/// Whether every path down from node `i` reaches a node that may be
/// selected as a final choice: the node is selectable itself, or it has
/// children and every child's subtree satisfies the same.
pub open spec fn subtree_selectable_ok(nodes: Seq<Category>, i: int) -> bool
    decreases nodes.len() - i,
    when 0 <= i < nodes.len() && nodes_wf(nodes)
    via subtree_selectable_ok_decreases
{
    nodes[i].selectable_as_last || (nodes[i].children@.len() > 0 && (forall|j: int|
        0 <= j < nodes[i].children@.len() ==> subtree_selectable_ok(
            nodes,
            (#[trigger] nodes[i].children@[j]) as int,
        )))
}

#[via_fn]
proof fn subtree_selectable_ok_decreases(nodes: Seq<Category>, i: int) {
    assert(node_wf(nodes, i));
}

/// Whether every tree rooted in `roots` satisfies the selectable-as-last
/// invariant.
pub open spec fn forest_selectable_ok(nodes: Seq<Category>, roots: Seq<usize>) -> bool {
    forall|k: int| 0 <= k < roots.len() ==> subtree_selectable_ok(nodes, (#[trigger] roots[k]) as int)
}

/// The message names some childless, non-selectable category of the
/// forest, by name and id.
pub open spec fn failing_leaf_named(nodes: Seq<Category>, message: Seq<char>) -> bool {
    exists|d: int|
        0 <= d < nodes.len() && !(#[trigger] nodes[d]).selectable_as_last && nodes[
            d
        ].children@.len() == 0 && contains_seq(message, nodes[d].name@) && contains_seq(
            message,
            nodes[d].id@,
        )
}

/// Checks that each end category is selectable as last, by itself or
/// through its descendants.
pub struct SelectableAsLastValidation {}

impl SelectableAsLastValidation {
    pub fn new() -> (v: SelectableAsLastValidation) {
        SelectableAsLastValidation {  }
    }

    /// Walks the subtree of one node; fails with
    /// `LastCategoryNotSelectable` at the first childless node that is not
    /// selectable as last.
    pub fn validate_selectable_as_last(&self, nodes: &Vec<Category>, index: usize) -> (r: Result<(), Error>)
        requires
            nodes_wf(nodes@),
            (index as int) < nodes@.len(),
        ensures
            r is Ok <==> subtree_selectable_ok(nodes@, index as int),
            r matches Err(e) ==> e.kind == ErrorKind::LastCategoryNotSelectable
                && failing_leaf_named(nodes@, e.message@),
        decreases nodes@.len() - index,
    {
        proof {
            assert(node_wf(nodes@, index as int));
        }
        if nodes[index].selectable_as_last {
            return Ok(());
        }
        if nodes[index].children.len() == 0 {
            let category = &nodes[index];
            let mut message = String::from_str("category '");
            let ghost opening = message@;
            message.append(category.name.as_str());
            proof {
                lemma_contains_self(category.name@);
                lemma_append_contains_right(opening, category.name@, category.name@);
            }
            let ghost named = message@;
            message.append("' with id '");
            let ghost before_id = message@;
            message.append(category.id.as_str());
            proof {
                lemma_contains_self(category.id@);
                lemma_append_contains_right(before_id, category.id@, category.id@);
            }
            message.append("' has no children and it is not selectable as last");
            proof {
                let whole = message@;
                assert(named + whole.subrange(named.len() as int, whole.len() as int) =~= whole);
                lemma_append_contains_left(
                    named,
                    whole.subrange(named.len() as int, whole.len() as int),
                    category.name@,
                );
                let with_id = before_id + category.id@;
                assert(with_id + whole.subrange(with_id.len() as int, whole.len() as int)
                    =~= whole);
                lemma_append_contains_left(
                    with_id,
                    whole.subrange(with_id.len() as int, whole.len() as int),
                    category.id@,
                );
            }
            return Err(Error::from_string(ErrorKind::LastCategoryNotSelectable, message));
        }
        let mut j: usize = 0;
        while j < nodes[index].children.len()
            invariant
                nodes_wf(nodes@),
                (index as int) < nodes@.len(),
                !nodes@[index as int].selectable_as_last,
                nodes@[index as int].children@.len() > 0,
                0 <= j <= nodes@[index as int].children@.len(),
                forall|k: int|
                    0 <= k < j ==> subtree_selectable_ok(
                        nodes@,
                        (#[trigger] nodes@[index as int].children@[k]) as int,
                    ),
            decreases nodes@[index as int].children@.len() - j,
        {
            proof {
                assert(node_wf(nodes@, index as int));
            }
            let child = nodes[index].children[j];
            match self.validate_selectable_as_last(nodes, child) {
                Ok(_) => (),
                Err(error) => {
                    assert(!subtree_selectable_ok(nodes@, index as int));
                    return Err(error);
                },
            }
            j = j + 1;
        }
        Ok(())
    }

    /// Checks every tree in the forest, in root order.
    pub fn validate(&self, nodes: &Vec<Category>, root_categories: &Vec<usize>) -> (r: Result<(), Error>)
        requires
            nodes_wf(nodes@),
            roots_wf(nodes@, root_categories@),
        ensures
            r is Ok <==> forest_selectable_ok(nodes@, root_categories@),
            r matches Err(e) ==> e.kind == ErrorKind::LastCategoryNotSelectable
                && failing_leaf_named(nodes@, e.message@),
    {
        let mut k: usize = 0;
        while k < root_categories.len()
            invariant
                nodes_wf(nodes@),
                roots_wf(nodes@, root_categories@),
                0 <= k <= root_categories@.len(),
                forall|m: int|
                    0 <= m < k ==> subtree_selectable_ok(
                        nodes@,
                        (#[trigger] root_categories@[m]) as int,
                    ),
            decreases root_categories@.len() - k,
        {
            match self.validate_selectable_as_last(nodes, root_categories[k]) {
                Ok(_) => (),
                Err(error) => {
                    return Err(error);
                },
            }
            k = k + 1;
        }
        Ok(())
    }
}

} // verus!
