use vstd::prelude::*;
use vstd::hash_map::StringHashMap;

use crate::categories::category::{node_wf, nodes_wf, roots_wf, Category};
use crate::categories::category_id_generator;
use crate::categories::category_id_tracker::{
    category_entries_map, CategoryEntry, CategoryIdTracker,
};
use crate::categories::source_category::SourceCategory;
use crate::categories::tree_builder::{
    all_attrs_have_ids, build_forest, forest_buildable, node_edges_match, source_permutation,
};
use crate::categories::validations::selectable_as_last_validation::{
    forest_selectable_ok, SelectableAsLastValidation,
};
use crate::ci::{
    all_ids_present, links_view, planned_count, planned_count_none, write_matches,
    write_planned_for, CategoryWrite, CI,
};
use crate::error::{Error, ErrorKind};
use crate::attributes::attribute::Attribute;
use crate::tracking::{after_tracking, track_ids_ok};

verus! {

/// Whether a text is one well-formed JSON document.
pub uninterp spec fn json_valid(s: Seq<char>) -> bool;

/// Relies on serde_json::from_str::<serde_json::Value>: whether the text
/// parses as one JSON document, a function of its characters alone.
#[verifier::external_body]
pub fn is_json_valid(json: &str) -> (r: bool)
    ensures
        r == json_valid(json@),
{
    serde_json::from_str::<serde_json::Value>(json).is_ok()
}

/// Accepts the documents exactly when every one of them is well-formed
/// JSON; a malformed fragment fails with `FailedToReadCategory`.
pub fn check_json_documents(documents: &Vec<String>) -> (r: Result<(), Error>)
    ensures
        r is Ok <==> (forall|i: int|
            0 <= i < documents@.len() ==> json_valid(#[trigger] documents@[i]@)),
        r matches Err(e) ==> e.kind == ErrorKind::FailedToReadCategory,
{
    let mut i: usize = 0;
    while i < documents.len()
        invariant
            0 <= i <= documents@.len(),
            forall|j: int| 0 <= j < i ==> json_valid(#[trigger] documents@[j]@),
        decreases documents@.len() - i,
    {
        if !is_json_valid(documents[i].as_str()) {
            return Err(
                Error::new(ErrorKind::FailedToReadCategory, "a category fragment is not valid JSON"),
            );
        }
        i = i + 1;
    }
    Ok(())
}

/// The ids of the records that already carry one, among the first `k`,
/// in order.
pub open spec fn sourced_ids(sources: Seq<SourceCategory>, k: int) -> Seq<Seq<char>>
    decreases k,
{
    if k <= 0 {
        Seq::empty()
    } else if sources[k - 1].id is Some {
        sourced_ids(sources, k - 1).push(sources[k - 1].id.unwrap()@)
    } else {
        sourced_ids(sources, k - 1)
    }
}

/// The links after the first `k` records: each id-bearing record binds
/// its name on first sight; records without an id bind nothing here.
pub open spec fn sourced_links_upto(
    links0: Map<Seq<char>, Seq<char>>,
    sources: Seq<SourceCategory>,
    k: int,
) -> Map<Seq<char>, Seq<char>>
    decreases k,
{
    if k <= 0 {
        links0
    } else {
        let prev = sourced_links_upto(links0, sources, k - 1);
        if sources[k - 1].id is Some {
            if prev.contains_key(sources[k - 1].name@) {
                prev
            } else {
                prev.insert(sources[k - 1].name@, sources[k - 1].id.unwrap()@)
            }
        } else {
            prev
        }
    }
}

/// Whether linking the first `k` id-bearing records succeeds: a name seen
/// again must still be bound to the same id.
pub open spec fn sourced_linking_ok_upto(
    links0: Map<Seq<char>, Seq<char>>,
    sources: Seq<SourceCategory>,
    k: int,
) -> bool
    decreases k,
{
    if k <= 0 {
        true
    } else {
        let prev = sourced_links_upto(links0, sources, k - 1);
        sourced_linking_ok_upto(links0, sources, k - 1) && (sources[k - 1].id matches Some(id)
            ==> (prev.contains_key(sources[k - 1].name@) ==> prev[sources[k - 1].name@] == id@))
    }
}

/// The parent-id references of the records, as written in the records.
pub open spec fn parents_of(sources: Seq<SourceCategory>) -> Seq<Option<String>> {
    sources.map_values(|s: SourceCategory| s.parent)
}

/// The earlier reconciliation flow: tracks the ids already present
/// against the ledger first, then assigns ids to the new records, builds
/// the tree by explicit parent ids and checks the selectable-as-last
/// invariant before planning the write-back.
pub struct Validator {
    name_id_links: StringHashMap<String>,
    nodes: Vec<Category>,
    root_categories: Vec<usize>,
    mutated: StringHashMap<bool>,
}

impl Validator {
    /// The name-to-id links established so far, as character sequences.
    pub closed spec fn links(&self) -> Map<Seq<char>, Seq<char>> {
        links_view(self.name_id_links@)
    }

    pub closed spec fn forest(&self) -> Seq<Category> {
        self.nodes@
    }

    pub closed spec fn roots(&self) -> Seq<usize> {
        self.root_categories@
    }

    pub closed spec fn mutated_names(&self) -> Set<Seq<char>> {
        self.mutated@.dom()
    }

    pub closed spec fn wf(&self) -> bool {
        nodes_wf(self.nodes@) && roots_wf(self.nodes@, self.root_categories@)
    }

    pub fn new() -> (v: Validator)
        ensures
            v.links() == Map::<Seq<char>, Seq<char>>::empty(),
            v.forest() == Seq::<Category>::empty(),
            v.roots() == Seq::<usize>::empty(),
            v.mutated_names() == Set::<Seq<char>>::empty(),
            v.wf(),
    {
        let v = Validator {
            name_id_links: StringHashMap::new(),
            nodes: Vec::new(),
            root_categories: Vec::new(),
            mutated: StringHashMap::new(),
        };
        proof {
            assert(v.links() =~= Map::<Seq<char>, Seq<char>>::empty());
            assert(v.mutated_names() =~= Set::<Seq<char>>::empty());
        }
        v
    }

    /// Records that `name` belongs to `id`; a name bound to a different
    /// id fails with `DuplicatedName`.
    pub fn link_name_with_id(&mut self, name: &str, id: &str) -> (r: Result<(), Error>)
        ensures
            final(self).forest() == old(self).forest(),
            final(self).roots() == old(self).roots(),
            final(self).mutated_names() == old(self).mutated_names(),
            old(self).wf() ==> final(self).wf(),
            !old(self).links().contains_key(name@) ==> r is Ok && final(self).links() == old(self).links().insert(name@, id@),
            old(self).links().contains_key(name@) && old(self).links()[name@] == id@ ==> r is Ok
                && final(self).links() == old(self).links(),
            old(self).links().contains_key(name@) && old(self).links()[name@] != id@ ==> (
            r matches Err(e) && e.kind == ErrorKind::DuplicatedName) && final(self).links() == old(self).links(),
    {
        match self.name_id_links.get(name) {
            Some(linked_id) => {
                if !(*linked_id == id.to_owned()) {
                    let mut message = String::from_str("category name '");
                    message.append(name);
                    message.append("' is already linked with a different id: ");
                    message.append(linked_id.as_str());
                    return Err(Error::from_string(ErrorKind::DuplicatedName, message));
                }
                Ok(())
            },
            None => {
                self.name_id_links.insert(name.to_owned(), id.to_owned());
                proof {
                    assert(self.links() =~= old(self).links().insert(name@, id@));
                }
                Ok(())
            },
        }
    }

    /// Confirms every id already present in the sources against the
    /// ledger (each at most once, and the ledger must be exhausted), and
    /// links each such record's name to its id. It succeeds exactly when
    /// no name is bound to two different ids, every present id is in the
    /// ledger at most once, and the ledger is exhausted.
    pub fn track_existing_ids(
        &mut self,
        source_categories: &Vec<SourceCategory>,
        entries: Vec<CategoryEntry>,
    ) -> (r: Result<(), Error>)
        ensures
            final(self).forest() == old(self).forest(),
            final(self).roots() == old(self).roots(),
            final(self).mutated_names() == old(self).mutated_names(),
            old(self).wf() ==> final(self).wf(),
            r is Ok <==> {
                let n = source_categories@.len() as int;
                &&& sourced_linking_ok_upto(old(self).links(), source_categories@, n)
                &&& track_ids_ok(
                    category_entries_map(entries@),
                    sourced_ids(source_categories@, n),
                )
                &&& after_tracking(
                    category_entries_map(entries@),
                    sourced_ids(source_categories@, n),
                ).dom().is_empty()
            },
            r is Ok ==> final(self).links() == sourced_links_upto(
                old(self).links(),
                source_categories@,
                source_categories@.len() as int,
            ),
            r is Ok ==> (forall|i: int|
                0 <= i < source_categories@.len() ==> ((#[trigger] source_categories@[i].id)
                    matches Some(id) ==> final(self).links().contains_key(
                    source_categories@[i].name@,
                ) && final(self).links()[source_categories@[i].name@] == id@)),
            r matches Err(e) ==> e.kind == ErrorKind::DuplicatedName || e.kind
                == ErrorKind::DuplicatedId || e.kind == ErrorKind::IdNotFound || e.kind
                == ErrorKind::IdNotTracked,
    {
        let ghost links0 = old(self).links();
        let ghost n = source_categories@.len() as int;
        let mut tracker = CategoryIdTracker::new(entries);
        let ghost initial = tracker.pending();
        let mut i: usize = 0;
        while i < source_categories.len()
            invariant
                0 <= i <= source_categories@.len(),
                n == source_categories@.len() as int,
                links0 == old(self).links(),
                initial == category_entries_map(entries@),
                tracker.wf(),
                self.forest() == old(self).forest(),
                self.roots() == old(self).roots(),
                self.mutated_names() == old(self).mutated_names(),
                old(self).wf() ==> self.wf(),
                sourced_linking_ok_upto(links0, source_categories@, i as int),
                self.links() == sourced_links_upto(links0, source_categories@, i as int),
                track_ids_ok(initial, sourced_ids(source_categories@, i as int)),
                tracker.pending() == after_tracking(
                    initial,
                    sourced_ids(source_categories@, i as int),
                ),
                forall|t: int|
                    0 <= t < i ==> ((#[trigger] source_categories@[t].id) matches Some(id)
                        ==> self.links().contains_key(source_categories@[t].name@)
                        && self.links()[source_categories@[t].name@] == id@),
            decreases source_categories@.len() - i,
        {
            let id_opt: Option<String> = match &source_categories[i].id {
                Some(id) => Some(id.clone()),
                None => None,
            };
            match id_opt {
                Some(id) => {
                    let name = source_categories[i].name.clone();
                    match self.link_name_with_id(name.as_str(), id.as_str()) {
                        Ok(_) => (),
                        Err(error) => {
                            proof {
                                assert(!sourced_linking_ok_upto(
                                    links0,
                                    source_categories@,
                                    i as int + 1,
                                ));
                                sourced_linking_prefix_fails(
                                    links0,
                                    source_categories@,
                                    i as int + 1,
                                    n,
                                );
                            }
                            return Err(error);
                        },
                    }
                    proof {
                        assert(sourced_linking_ok_upto(links0, source_categories@, i as int + 1));
                        assert(self.links() == sourced_links_upto(
                            links0,
                            source_categories@,
                            i as int + 1,
                        ));
                        let prefix = sourced_ids(source_categories@, i as int);
                        let full = sourced_ids(source_categories@, i as int + 1);
                        assert(full == prefix.push(source_categories@[i as int].id.unwrap()@));
                        assert(full.drop_last() =~= prefix);
                        assert(full.last() == source_categories@[i as int].id.unwrap()@);
                    }
                    match tracker.track_category(id.as_str()) {
                        Ok(_) => (),
                        Err(error) => {
                            proof {
                                assert(!track_ids_ok(
                                    initial,
                                    sourced_ids(source_categories@, i as int + 1),
                                ));
                                sourced_track_prefix_fails(
                                    initial,
                                    source_categories@,
                                    i as int + 1,
                                    n,
                                );
                            }
                            return Err(error);
                        },
                    }
                },
                None => (),
            }
            i = i + 1;
        }
        match tracker.close() {
            Ok(_) => Ok(()),
            Err(error) => Err(error),
        }
    }

    /// Assigns a fresh id to every record that lacks one, links its name,
    /// and remembers its fragment as mutated.
    pub fn generate_ids_for_new_categories(
        &mut self,
        source_categories: &mut Vec<SourceCategory>,
    ) -> (r: Result<(), Error>)
        ensures
            final(source_categories)@.len() == old(source_categories)@.len(),
            final(self).forest() == old(self).forest(),
            final(self).roots() == old(self).roots(),
            old(self).wf() ==> final(self).wf(),
            old(self).mutated_names().subset_of(final(self).mutated_names()),
            r is Ok ==> all_ids_present(final(source_categories)@),
            r is Ok ==> (forall|i: int|
                0 <= i < old(source_categories)@.len() ==> {
                    let o = old(source_categories)@[i];
                    let n = #[trigger] final(source_categories)@[i];
                    &&& n.name == o.name
                    &&& n.parent == o.parent
                    &&& n.parent_name == o.parent_name
                    &&& n.selectable_as_last == o.selectable_as_last
                    &&& n.attributes@ == o.attributes@
                    &&& (o.id is Some ==> n.id == o.id)
                }),
            all_ids_present(old(source_categories)@) ==> final(source_categories)@ == old(source_categories)@ && final(self).mutated_names() == old(self).mutated_names() && final(self).links()
                == old(self).links() && r is Ok,
            r matches Err(e) ==> e.kind == ErrorKind::DuplicatedName,
    {
        let ghost srcs0 = old(source_categories)@;
        let mut i: usize = 0;
        while i < source_categories.len()
            invariant
                0 <= i <= source_categories@.len(),
                source_categories@.len() == srcs0.len(),
                srcs0 == old(source_categories)@,
                self.forest() == old(self).forest(),
                self.roots() == old(self).roots(),
                old(self).wf() ==> self.wf(),
                old(self).mutated_names().subset_of(self.mutated_names()),
                forall|t: int| i <= t < srcs0.len() ==> source_categories@[t] == srcs0[t],
                forall|t: int|
                    0 <= t < i ==> {
                        let o = srcs0[t];
                        let n = #[trigger] source_categories@[t];
                        &&& n.name == o.name
                        &&& n.parent == o.parent
                        &&& n.parent_name == o.parent_name
                        &&& n.selectable_as_last == o.selectable_as_last
                        &&& n.attributes@ == o.attributes@
                        &&& (o.id is Some ==> n.id == o.id)
                        &&& n.id is Some
                    },
                all_ids_present(srcs0) ==> source_categories@ == srcs0 && self.mutated_names()
                    == old(self).mutated_names() && self.links() == old(self).links(),
            decreases source_categories@.len() - i,
        {
            let has_id = source_categories[i].id.is_some();
            if !has_id {
                match category_id_generator::set_random_id(&mut source_categories[i]) {
                    Ok(_) => (),
                    Err(error) => {
                        return Err(error);
                    },
                }
                let name = source_categories[i].name.clone();
                let id: String = match &source_categories[i].id {
                    Some(id) => id.clone(),
                    None => {
                        return Err(
                            Error::new(
                                ErrorKind::MissingId,
                                "category is missing id after setting a random one",
                            ),
                        );
                    },
                };
                match self.link_name_with_id(name.as_str(), id.as_str()) {
                    Ok(_) => (),
                    Err(error) => {
                        return Err(error);
                    },
                }
                self.mark_mutated(name.as_str());
            }
            i = i + 1;
        }
        Ok(())
    }

    /// Marks the named fragment as mutated by id assignment.
    fn mark_mutated(&mut self, name: &str)
        ensures
            final(self).mutated_names() == old(self).mutated_names().insert(name@),
            final(self).links() == old(self).links(),
            final(self).forest() == old(self).forest(),
            final(self).roots() == old(self).roots(),
            old(self).wf() ==> final(self).wf(),
    {
        self.mutated.insert(name.to_owned(), true);
        proof {
            assert(self.mutated_names() =~= old(self).mutated_names().insert(name@));
        }
    }

    /// Assembles the ownership forest, resolving parents by the explicit
    /// parent-id reference of each record.
    pub fn map_source_categories(&mut self, source_categories: &Vec<SourceCategory>) -> (r: Result<
        (),
        Error,
    >)
        requires
            old(self).forest().len() == 0,
            old(self).roots().len() == 0,
            all_ids_present(source_categories@),
            source_categories@.len() < usize::MAX,
        ensures
            final(self).wf(),
            final(self).links() == old(self).links(),
            final(self).mutated_names() == old(self).mutated_names(),
            r is Ok <==> forest_buildable(source_categories@, parents_of(source_categories@))
                && all_attrs_have_ids(source_categories@),
            r is Ok ==> exists|order: Seq<int>|
                source_permutation(source_categories@, final(self).forest(), order) && (forall|
                k: int,
            |
                0 <= k < order.len() ==> node_edges_match(
                    source_categories@,
                    parents_of(source_categories@),
                    final(self).forest(),
                    order,
                    k,
                )),
            forall|t: int|
                0 <= t < final(self).roots().len() ==> ((#[trigger] final(self).roots()[t]) as int)
                    < final(self).forest().len() && (final(self).forest()[final(self).roots()[
                    t
                ] as int].parent) is None,
            forall|k: int|
                0 <= k < final(self).forest().len() && ((#[trigger] final(self).forest()[
                    k
                ].parent)) is None ==> final(self).roots().contains(k as usize),
            r matches Err(e) ==> e.kind == ErrorKind::ParentNotAvailable || e.kind
                == ErrorKind::MissingId,
    {
        let mut parent_ids: Vec<Option<String>> = Vec::new();
        let mut i: usize = 0;
        while i < source_categories.len()
            invariant
                0 <= i <= source_categories@.len(),
                parent_ids@.len() == i,
                self == old(self),
                self.forest().len() == 0,
                self.roots().len() == 0,
                forall|t: int| 0 <= t < i ==> parent_ids@[t] == source_categories@[t].parent,
            decreases source_categories@.len() - i,
        {
            let pid: Option<String> = match &source_categories[i].parent {
                None => None,
                Some(parent_id) => Some(parent_id.clone()),
            };
            parent_ids.push(pid);
            i = i + 1;
        }
        proof {
            assert(parent_ids@ =~= parents_of(source_categories@));
        }
        let built = build_forest(
            &mut self.nodes,
            &mut self.root_categories,
            source_categories,
            &parent_ids,
        );
        proof {
            if !(built is Err) {
                let order = choose|order: Seq<int>|
                    source_permutation(source_categories@, self.nodes@, order) && (forall|k: int|
                        0 <= k < order.len() ==> node_edges_match(
                            source_categories@,
                            parent_ids@,
                            self.nodes@,
                            order,
                            k,
                        ));
                assert(parent_ids@ == parents_of(source_categories@));
                assert(source_permutation(source_categories@, self.forest(), order));
            }
        }
        match built {
            Ok(_) => Ok(()),
            Err(error) => Err(error),
        }
    }

    /// Checks the selectable-as-last invariant over the assembled forest.
    pub fn selectable_as_last_validation(&self) -> (r: Result<(), Error>)
        requires
            self.wf(),
        ensures
            r is Ok <==> forest_selectable_ok(self.forest(), self.roots()),
            r matches Err(e) ==> e.kind == ErrorKind::LastCategoryNotSelectable,
    {
        let selectable = SelectableAsLastValidation::new();
        selectable.validate(&self.nodes, &self.root_categories)
    }

    /// Plans the write-back of one category: mutated fragments get their
    /// resolved record appended to the write list.
    pub fn apply_changes_for_category(&self, index: usize, writes: &mut Vec<CategoryWrite>) -> (r:
        Result<(), Error>)
        requires
            self.wf(),
            (index as int) < self.forest().len(),
        ensures
            r is Ok,
            self.mutated_names().contains(self.forest()[index as int].name@) ==> final(writes)@.len() == old(writes)@.len() + 1 && write_matches(
                self.forest(),
                index as int,
                final(writes)@.last(),
            ) && (forall|t: int|
                0 <= t < old(writes)@.len() ==> final(writes)@[t] == old(writes)@[t]),
            !self.mutated_names().contains(self.forest()[index as int].name@) ==> final(writes)@
                == old(writes)@,
    {
        proof {
            assert(node_wf(self.forest(), index as int));
        }
        let category = &self.nodes[index];
        if !self.mutated.contains_key(category.name.as_str()) {
            return Ok(());
        }
        let (parent, parent_name) = match category.parent {
            Some(p) => {
                let parent_node = &self.nodes[p];
                (Some(parent_node.id.clone()), Some(parent_node.name.clone()))
            },
            None => (None, None),
        };
        let record = SourceCategory {
            id: Some(category.id.clone()),
            parent,
            parent_name,
            name: category.name.clone(),
            selectable_as_last: Some(category.selectable_as_last),
            attributes: Attribute::to_source_attributes(category.attributes.as_slice()),
        };
        writes.push(CategoryWrite { name: category.name.clone(), category: record });
        Ok(())
    }

    /// Plans the write-back pass: exactly the fragments mutated by id
    /// assignment are rewritten, in arena order.
    pub fn apply_changes(&self) -> (r: Result<Vec<CategoryWrite>, Error>)
        requires
            self.wf(),
        ensures
            r matches Ok(writes) && {
                &&& (forall|t: int|
                    0 <= t < writes@.len() ==> CI::write_planned(
                        self.forest(),
                        self.mutated_names(),
                        #[trigger] writes@[t],
                    ))
                &&& (forall|i: int|
                    0 <= i < self.forest().len() && self.mutated_names().contains(
                        (#[trigger] self.forest()[i]).name@,
                    ) ==> write_planned_for(self.forest(), writes@, i))
                &&& writes@.len() == planned_count(
                    self.forest(),
                    self.mutated_names(),
                    self.forest().len() as int,
                )
                &&& ((forall|i: int|
                    0 <= i < self.forest().len() ==> !self.mutated_names().contains(
                        (#[trigger] self.forest()[i]).name@,
                    )) ==> writes@.len() == 0)
            },
    {
        let mut writes: Vec<CategoryWrite> = Vec::new();
        let mut i: usize = 0;
        while i < self.nodes.len()
            invariant
                0 <= i <= self.forest().len(),
                self.wf(),
                forall|t: int|
                    0 <= t < writes@.len() ==> CI::write_planned(
                        self.forest(),
                        self.mutated_names(),
                        #[trigger] writes@[t],
                    ),
                forall|i0: int|
                    0 <= i0 < i && self.mutated_names().contains(
                        (#[trigger] self.forest()[i0]).name@,
                    ) ==> write_planned_for(self.forest(), writes@, i0),
                writes@.len() == planned_count(self.forest(), self.mutated_names(), i as int),
            decreases self.forest().len() - i,
        {
            let ghost writes_before = writes@;
            match self.apply_changes_for_category(i, &mut writes) {
                Ok(_) => (),
                Err(error) => {
                    return Err(error);
                },
            }
            proof {
                assert forall|t: int|
                    0 <= t < writes@.len() implies CI::write_planned(
                    self.forest(),
                    self.mutated_names(),
                    #[trigger] writes@[t],
                ) by {
                    if t < writes_before.len() {
                        assert(writes@[t] == writes_before[t]);
                    } else {
                        assert(write_matches(self.forest(), i as int, writes@[t]));
                    }
                }
                assert forall|i0: int|
                    0 <= i0 < i + 1 && self.mutated_names().contains(
                    (#[trigger] self.forest()[i0]).name@,
                ) implies write_planned_for(self.forest(), writes@, i0) by {
                    if i0 < i as int {
                        let t = choose|t: int|
                            0 <= t < writes_before.len() && #[trigger] write_matches(
                                self.forest(),
                                i0,
                                writes_before[t],
                            );
                        assert(writes@[t] == writes_before[t]);
                        assert(write_matches(self.forest(), i0, writes@[t]));
                    } else {
                        assert(write_matches(self.forest(), i as int, writes@.last()));
                        assert(writes@[writes@.len() - 1] == writes@.last());
                    }
                }
            }
            i = i + 1;
        }
        proof {
            if forall|i0: int|
                0 <= i0 < self.forest().len() ==> !self.mutated_names().contains(
                    (#[trigger] self.forest()[i0]).name@,
                ) {
                planned_count_none(self.forest(), self.mutated_names(), self.forest().len() as int);
            }
        }
        Ok(writes)
    }

    /// The whole earlier flow: track the existing ids, assign the missing
    /// ones, build the tree, check selectable-as-last, plan the write-back.
    /// A run over records that all carry their ids already plans no writes.
    pub fn validate(
        &mut self,
        source_categories: Vec<SourceCategory>,
        entries: Vec<CategoryEntry>,
    ) -> (r: Result<Vec<CategoryWrite>, Error>)
        requires
            old(self).forest().len() == 0,
            old(self).roots().len() == 0,
            old(self).mutated_names() == Set::<Seq<char>>::empty(),
            source_categories@.len() < usize::MAX,
        ensures
            r is Ok ==> final(self).wf() && forest_selectable_ok(
                final(self).forest(),
                final(self).roots(),
            ),
            r is Ok ==> track_ids_ok(
                category_entries_map(entries@),
                sourced_ids(source_categories@, source_categories@.len() as int),
            ) && after_tracking(
                category_entries_map(entries@),
                sourced_ids(source_categories@, source_categories@.len() as int),
            ).dom().is_empty(),
            all_ids_present(source_categories@) ==> (r matches Ok(writes) ==> writes@.len() == 0),
            all_ids_present(source_categories@) ==> {
                let n = source_categories@.len() as int;
                r is Ok <==> sourced_linking_ok_upto(old(self).links(), source_categories@, n)
                    && track_ids_ok(
                    category_entries_map(entries@),
                    sourced_ids(source_categories@, n),
                ) && after_tracking(
                    category_entries_map(entries@),
                    sourced_ids(source_categories@, n),
                ).dom().is_empty() && forest_buildable(
                    source_categories@,
                    parents_of(source_categories@),
                ) && all_attrs_have_ids(source_categories@) && forest_selectable_ok(
                    final(self).forest(),
                    final(self).roots(),
                )
            },
            r matches Err(e) ==> e.kind == ErrorKind::DuplicatedName || e.kind
                == ErrorKind::DuplicatedId || e.kind == ErrorKind::IdNotFound || e.kind
                == ErrorKind::IdNotTracked || e.kind == ErrorKind::MissingId || e.kind
                == ErrorKind::ParentNotAvailable || e.kind == ErrorKind::LastCategoryNotSelectable,
    {
        let mut sources = source_categories;
        match self.track_existing_ids(&sources, entries) {
            Ok(_) => (),
            Err(error) => {
                return Err(error);
            },
        }
        match self.generate_ids_for_new_categories(&mut sources) {
            Ok(_) => (),
            Err(error) => {
                return Err(error);
            },
        }
        match self.map_source_categories(&sources) {
            Ok(_) => (),
            Err(error) => {
                return Err(error);
            },
        }
        match self.selectable_as_last_validation() {
            Ok(_) => (),
            Err(error) => {
                return Err(error);
            },
        }
        self.apply_changes()
    }
}

/// A linking pass with a failing prefix fails as a whole.
proof fn sourced_linking_prefix_fails(
    links0: Map<Seq<char>, Seq<char>>,
    sources: Seq<SourceCategory>,
    k: int,
    n: int,
)
    requires
        0 <= k <= n,
        !sourced_linking_ok_upto(links0, sources, k),
    ensures
        !sourced_linking_ok_upto(links0, sources, n),
    decreases n - k,
{
    if k < n {
        sourced_linking_prefix_fails(links0, sources, k + 1, n);
    }
}

/// A tracking pass with a failing prefix fails as a whole.
proof fn sourced_track_prefix_fails(
    pending: Map<Seq<char>, bool>,
    sources: Seq<SourceCategory>,
    k: int,
    n: int,
)
    requires
        0 <= k <= n,
        !track_ids_ok(pending, sourced_ids(sources, k)),
    ensures
        !track_ids_ok(pending, sourced_ids(sources, n)),
    decreases n - k,
{
    if k < n {
        if sources[k] .id is Some {
            assert(sourced_ids(sources, k + 1) == sourced_ids(sources, k).push(
                sources[k].id.unwrap()@,
            ));
            assert(sourced_ids(sources, k + 1).drop_last() =~= sourced_ids(sources, k));
        }
        sourced_track_prefix_fails(pending, sources, k + 1, n);
    }
}

} // verus!
