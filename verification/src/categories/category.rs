use vstd::prelude::*;

use crate::attributes::attribute::Attribute;
use crate::error::{Error, ErrorKind};

verus! {

/// Resolved, in-memory category. Nodes live in an arena (a vector); the
/// parent link and the children list hold arena indices, so a node's
/// children always sit at larger indices than the node itself.
#[derive(Debug)]
pub struct Category {
    pub id: String,
    pub name: String,
    pub selectable_as_last: bool,
    pub attributes: Vec<Attribute>,
    pub parent: Option<usize>,
    pub children: Vec<usize>,
}

/// Arena invariant for one node: children point strictly forward and stay
/// in bounds, and a parent sits strictly before the node.
pub open spec fn node_wf(nodes: Seq<Category>, i: int) -> bool {
    &&& (forall|j: int|
        0 <= j < nodes[i].children@.len() ==> i < (#[trigger] nodes[i].children@[j]) as int
            && (nodes[i].children@[j] as int) < nodes.len())
    &&& (nodes[i].parent matches Some(p) ==> (p as int) < i)
}

/// Arena invariant for the whole forest.
pub open spec fn nodes_wf(nodes: Seq<Category>) -> bool {
    forall|i: int| 0 <= i < nodes.len() ==> #[trigger] node_wf(nodes, i)
}

/// The root indices all lie within the arena.
pub open spec fn roots_wf(nodes: Seq<Category>, roots: Seq<usize>) -> bool {
    forall|k: int| 0 <= k < roots.len() ==> ((#[trigger] roots[k]) as int) < nodes.len()
}

impl Category {
    /// A root-shaped node: no parent, no children yet.
    pub fn new(id: String, name: String, selectable_as_last: bool, attributes: Vec<Attribute>) -> (c: Category)
        ensures
            c.id == id,
            c.name == name,
            c.selectable_as_last == selectable_as_last,
            c.attributes == attributes,
            c.parent is None,
            c.children@ == Seq::<usize>::empty(),
    {
        Category { id, name, selectable_as_last, attributes, parent: None, children: Vec::new() }
    }

    /// Appends a new node to the arena as a child of `parent`, linking both
    /// directions. Fails with `ParentNotAvailable` when the parent index is
    /// not in the arena.
    pub fn new_into_parent(
        nodes: &mut Vec<Category>,
        id: String,
        parent: usize,
        name: String,
        selectable_as_last: bool,
        attributes: Vec<Attribute>,
    ) -> (r: Result<usize, Error>)
        requires
            nodes_wf(old(nodes)@),
            old(nodes)@.len() < usize::MAX,
        ensures
            nodes_wf(final(nodes)@),
            (parent as int) >= old(nodes)@.len() ==> (r matches Err(e) && e.kind
                == ErrorKind::ParentNotAvailable) && final(nodes)@ == old(nodes)@,
            (parent as int) < old(nodes)@.len() ==> {
                let idx = old(nodes)@.len() as int;
                &&& r matches Ok(new_index) && new_index as int == idx
                &&& final(nodes)@.len() == idx + 1
                &&& final(nodes)@[idx].id == id
                &&& final(nodes)@[idx].name == name
                &&& final(nodes)@[idx].selectable_as_last == selectable_as_last
                &&& final(nodes)@[idx].attributes == attributes
                &&& final(nodes)@[idx].parent == Some(parent)
                &&& final(nodes)@[idx].children@ == Seq::<usize>::empty()
                &&& final(nodes)@[parent as int].children@ == old(nodes)@[parent as int].children@.push(idx as usize)
                &&& final(nodes)@[parent as int].id == old(nodes)@[parent as int].id
                &&& final(nodes)@[parent as int].name == old(nodes)@[parent as int].name
                &&& final(nodes)@[parent as int].selectable_as_last == old(nodes)@[parent as int].selectable_as_last
                &&& final(nodes)@[parent as int].attributes == old(nodes)@[parent as int].attributes
                &&& final(nodes)@[parent as int].parent == old(nodes)@[parent as int].parent
                &&& (forall|k: int|
                    0 <= k < idx && k != parent as int ==> final(nodes)@[k] == old(nodes)@[k])
            },
    {
        if parent >= nodes.len() {
            return Err(Error::new(ErrorKind::ParentNotAvailable, "parent is no longer available"));
        }
        let new_index = nodes.len();
        nodes.push(
            Category {
                id,
                name,
                selectable_as_last,
                attributes,
                parent: Some(parent),
                children: Vec::new(),
            },
        );
        nodes[parent].children.push(new_index);
        proof {
            let m = nodes@;
            let n = old(nodes)@;
            assert forall|i: int| 0 <= i < m.len() implies #[trigger] node_wf(m, i) by {
                if i == parent as int {
                    assert(m[i].children@ == n[i].children@.push(new_index));
                    assert(forall|j: int|
                        0 <= j < n[i].children@.len() ==> m[i].children@[j] == n[
                            i
                        ].children@[j]);
                    assert(node_wf(n, i));
                } else if i == new_index as int {
                    assert(m[i].children@.len() == 0);
                } else {
                    assert(m[i] == n[i]);
                    assert(node_wf(n, i));
                }
            }
        }
        Ok(new_index)
    }
}

} // verus!
