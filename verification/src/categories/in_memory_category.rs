use vstd::prelude::*;

use crate::error::{Error, ErrorKind};

verus! {

/// Category shape without attributes, for callers that only need the tree.
/// Nodes live in an arena, as `Category` does.
#[derive(Debug)]
pub struct InMemoryCategory {
    pub id: String,
    pub name: String,
    pub selectable_as_last: bool,
    pub parent: Option<usize>,
    pub children: Vec<usize>,
}

/// Arena invariant: children point strictly forward and stay in bounds,
/// and a parent sits strictly before its node.
pub open spec fn in_memory_nodes_wf(nodes: Seq<InMemoryCategory>) -> bool {
    forall|i: int|
        0 <= i < nodes.len() ==> #[trigger] in_memory_node_wf(nodes, i)
}

pub open spec fn in_memory_node_wf(nodes: Seq<InMemoryCategory>, i: int) -> bool {
    &&& (forall|j: int|
        0 <= j < nodes[i].children@.len() ==> i < (#[trigger] nodes[i].children@[j]) as int
            && (nodes[i].children@[j] as int) < nodes.len())
    &&& (nodes[i].parent matches Some(p) ==> (p as int) < i)
}

impl InMemoryCategory {
    /// A root-shaped node: no parent, no children yet.
    pub fn new(id: String, name: String, selectable_as_last: bool) -> (c: InMemoryCategory)
        ensures
            c.id == id,
            c.name == name,
            c.selectable_as_last == selectable_as_last,
            c.parent is None,
            c.children@ == Seq::<usize>::empty(),
    {
        InMemoryCategory { id, name, selectable_as_last, parent: None, children: Vec::new() }
    }

    /// Appends a new node to the arena as a child of `parent`, linking both
    /// directions. Fails with `ParentNotAvailable` when the parent index is
    /// not in the arena.
    pub fn new_into_parent(
        nodes: &mut Vec<InMemoryCategory>,
        id: String,
        parent: usize,
        name: String,
        selectable_as_last: bool,
    ) -> (r: Result<usize, Error>)
        requires
            in_memory_nodes_wf(old(nodes)@),
            old(nodes)@.len() < usize::MAX,
        ensures
            in_memory_nodes_wf(final(nodes)@),
            (parent as int) >= old(nodes)@.len() ==> (r matches Err(e) && e.kind
                == ErrorKind::ParentNotAvailable) && final(nodes)@ == old(nodes)@,
            (parent as int) < old(nodes)@.len() ==> {
                let idx = old(nodes)@.len() as int;
                &&& r matches Ok(new_index) && new_index as int == idx
                &&& final(nodes)@.len() == idx + 1
                &&& final(nodes)@[idx].id == id
                &&& final(nodes)@[idx].name == name
                &&& final(nodes)@[idx].selectable_as_last == selectable_as_last
                &&& final(nodes)@[idx].parent == Some(parent)
                &&& final(nodes)@[idx].children@ == Seq::<usize>::empty()
                &&& final(nodes)@[parent as int].children@ == old(nodes)@[parent as int].children@.push(idx as usize)
                &&& (forall|k: int|
                    0 <= k < idx && k != parent as int ==> final(nodes)@[k] == old(nodes)@[k])
            },
    {
        if parent >= nodes.len() {
            return Err(Error::new(ErrorKind::ParentNotAvailable, "parent is no longer available"));
        }
        let new_index = nodes.len();
        nodes.push(
            InMemoryCategory {
                id,
                name,
                selectable_as_last,
                parent: Some(parent),
                children: Vec::new(),
            },
        );
        nodes[parent].children.push(new_index);
        proof {
            let m = nodes@;
            let n = old(nodes)@;
            assert forall|i: int| 0 <= i < m.len() implies #[trigger] in_memory_node_wf(m, i) by {
                if i == parent as int {
                    assert(m[i].children@ == n[i].children@.push(new_index));
                    assert(forall|j: int|
                        0 <= j < n[i].children@.len() ==> m[i].children@[j] == n[i].children@[j]);
                    assert(in_memory_node_wf(n, i));
                } else if i == new_index as int {
                    assert(m[i].children@.len() == 0);
                } else {
                    assert(m[i] == n[i]);
                    assert(in_memory_node_wf(n, i));
                }
            }
        }
        Ok(new_index)
    }
}

} // verus!
