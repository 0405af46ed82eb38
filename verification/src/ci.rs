use vstd::prelude::*;
use vstd::hash_map::StringHashMap;

use crate::attributes::attribute::Attribute;
use crate::attributes::attribute_id_generator;
use crate::attributes::attribute_tracker_io::AttributeEntry;
use crate::attributes::attribute_validator::data_type_ok;
use crate::attributes::source_attribute::SourceAttribute;
use crate::attributes::validations::data_type_constant_validation::{
    comparison_holds, comparisons, expectations_after, ids_validated_once,
    DataTypeConstantValidation,
};
use crate::attributes::validations::data_type_validation::DataTypeValidation;
use crate::attributes::validations::id_tracking_validation::{attribute_ids, IdTrackingValidation};
use crate::attributes::validations::reserved_attribute_names_validation::{
    name_reserved, ReservedAttributeNamesValidation,
};
use crate::categories::category::{nodes_wf, roots_wf, Category};
use crate::categories::category_id_generator;
use crate::categories::category_id_tracker::{category_entries_map, CategoryEntry};
use crate::categories::source_category::SourceCategory;
use crate::categories::tree_builder::{
    all_attrs_have_ids, build_forest, forest_buildable, node_edges_match, source_attrs_have_ids,
    source_permutation,
};
use crate::categories::validations::id_tracking_validation as category_id_tracking;
use crate::categories::validations::selectable_as_last_validation::{
    forest_selectable_ok, SelectableAsLastValidation,
};
use crate::config::Config;
use crate::error::{Error, ErrorKind};
use crate::tracking::{after_tracking, found_after, track_ids_ok};

verus! {

/// Every record carries an id.
pub open spec fn all_ids_present(sources: Seq<SourceCategory>) -> bool {
    forall|i: int| 0 <= i < sources.len() ==> (#[trigger] sources[i].id) is Some
}

/// The resolved parent ids agree with the linker: a source without a
/// parent name gets none, one with a parent name gets the linked id.
pub open spec fn parent_ids_match(
    links: Map<Seq<char>, Seq<char>>,
    sources: Seq<SourceCategory>,
    parent_ids: Seq<Option<String>>,
) -> bool {
    &&& parent_ids.len() == sources.len()
    &&& forall|i: int|
        0 <= i < sources.len() ==> match #[trigger] sources[i].parent_name {
            Option::None => parent_ids[i] is None,
            Option::Some(p) => parent_ids[i] matches Some(v) && v@ == links[p@],
        }
}

/// Every parent name the sources reference is linked to an id.
pub open spec fn all_parents_linked(
    links: Map<Seq<char>, Seq<char>>,
    sources: Seq<SourceCategory>,
) -> bool {
    forall|i: int|
        0 <= i < sources.len() ==> ((#[trigger] sources[i].parent_name) matches Some(p)
            ==> links.contains_key(p@))
}

/// The attributes of the first `k` categories of the forest, in arena order.
pub open spec fn attrs_upto(nodes: Seq<Category>, k: int) -> Seq<Attribute>
    decreases k,
{
    if k <= 0 {
        Seq::empty()
    } else {
        attrs_upto(nodes, k - 1) + nodes[k - 1].attributes@
    }
}

/// The attribute-ledger pending map after the first `k` categories'
/// attribute ids have been tracked.
pub open spec fn attr_track_map_upto(
    m0: Map<Seq<char>, String>,
    nodes: Seq<Category>,
    k: int,
) -> Map<Seq<char>, String>
    decreases k,
{
    if k <= 0 {
        m0
    } else {
        after_tracking(attr_track_map_upto(m0, nodes, k - 1), attribute_ids(nodes[k - 1].attributes@))
    }
}

/// Whether tracking the attribute ids of the first `k` categories succeeds.
pub open spec fn attr_track_ok_upto(
    m0: Map<Seq<char>, String>,
    nodes: Seq<Category>,
    k: int,
) -> bool
    decreases k,
{
    if k <= 0 {
        true
    } else {
        attr_track_ok_upto(m0, nodes, k - 1) && track_ids_ok(
            attr_track_map_upto(m0, nodes, k - 1),
            attribute_ids(nodes[k - 1].attributes@),
        )
    }
}

/// The confirmed attribute ids after the first `k` categories.
pub open spec fn attr_found_upto(nodes: Seq<Category>, k: int) -> Set<Seq<char>>
    decreases k,
{
    if k <= 0 {
        Set::empty()
    } else {
        found_after(attr_found_upto(nodes, k - 1), attribute_ids(nodes[k - 1].attributes@))
    }
}

/// The expectation map of the immutability check after `k` categories.
pub open spec fn constant_map_upto(
    m0: Map<Seq<char>, String>,
    nodes: Seq<Category>,
    k: int,
) -> Map<Seq<char>, String>
    decreases k,
{
    if k <= 0 {
        m0
    } else {
        expectations_after(constant_map_upto(m0, nodes, k - 1), nodes[k - 1].attributes@)
    }
}

/// Whether the immutability check consumes each of the first `k`
/// categories' attribute ids at most once.
pub open spec fn constant_ok_upto(m0: Map<Seq<char>, String>, nodes: Seq<Category>, k: int) -> bool
    decreases k,
{
    if k <= 0 {
        true
    } else {
        constant_ok_upto(m0, nodes, k - 1) && ids_validated_once(
            constant_map_upto(m0, nodes, k - 1),
            nodes[k - 1].attributes@,
        )
    }
}

/// The recorded-type comparisons of the first `k` categories, in order.
pub open spec fn constant_pairs_upto(
    m0: Map<Seq<char>, String>,
    nodes: Seq<Category>,
    k: int,
) -> Seq<(Seq<char>, Attribute)>
    decreases k,
{
    if k <= 0 {
        Seq::empty()
    } else {
        constant_pairs_upto(m0, nodes, k - 1) + comparisons(
            constant_map_upto(m0, nodes, k - 1),
            nodes[k - 1].attributes@,
        )
    }
}

/// The view of a name-to-id map: each name's id as a character sequence.
pub open spec fn links_view(m: Map<Seq<char>, String>) -> Map<Seq<char>, Seq<char>> {
    Map::new(|k: Seq<char>| m.contains_key(k), |k: Seq<char>| m[k]@)
}

/// The links after the first `k` sources have been linked in order: the
/// first sight of a name binds it, later sights leave it unchanged.
pub open spec fn links_after_upto(
    links0: Map<Seq<char>, Seq<char>>,
    sources: Seq<SourceCategory>,
    k: int,
) -> Map<Seq<char>, Seq<char>>
    decreases k,
{
    if k <= 0 {
        links0
    } else {
        let prev = links_after_upto(links0, sources, k - 1);
        if prev.contains_key(sources[k - 1].name@) {
            prev
        } else {
            prev.insert(sources[k - 1].name@, sources[k - 1].id.unwrap()@)
        }
    }
}

/// Whether linking the first `k` sources succeeds: a name seen again must
/// still be bound to the same id.
pub open spec fn linking_ok_upto(
    links0: Map<Seq<char>, Seq<char>>,
    sources: Seq<SourceCategory>,
    k: int,
) -> bool
    decreases k,
{
    if k <= 0 {
        true
    } else {
        let prev = links_after_upto(links0, sources, k - 1);
        linking_ok_upto(links0, sources, k - 1) && (prev.contains_key(sources[k - 1].name@)
            ==> prev[sources[k - 1].name@] == sources[k - 1].id.unwrap()@)
    }
}

/// Id generation only fills in missing ids; everything else is untouched.
pub open spec fn attr_id_filled_only(o: SourceAttribute, n: SourceAttribute) -> bool {
    &&& n.name == o.name
    &&& n.data_type == o.data_type
    &&& n.unit == o.unit
    &&& n.optional == o.optional
    &&& (o.id is Some ==> n.id == o.id)
    &&& n.id is Some
}

/// The (id, data type) pairs of a sequence of attribute ledger entries.
pub open spec fn attribute_entry_views(entries: Seq<AttributeEntry>) -> Seq<(Seq<char>, Seq<char>)> {
    entries.map_values(|e: AttributeEntry| (e.id@, e.data_type@))
}

/// The ledger entries owed for the first `k` attributes: one per attribute
/// that entered without an id, carrying the id it received and its data type.
pub open spec fn owed_attr_entries(
    a0: Seq<SourceAttribute>,
    a1: Seq<SourceAttribute>,
    k: int,
) -> Seq<(Seq<char>, Seq<char>)>
    decreases k,
{
    if k <= 0 {
        Seq::empty()
    } else {
        owed_attr_entries(a0, a1, k - 1) + if a0[k - 1].id is None {
            seq![(a1[k - 1].id.unwrap()@, a1[k - 1].data_type@)]
        } else {
            Seq::empty()
        }
    }
}

/// The category-ledger ids owed for the first `k` records: one per record
/// that entered without an id, carrying the id it received.
pub open spec fn owed_category_ids(
    s0: Seq<SourceCategory>,
    s1: Seq<SourceCategory>,
    k: int,
) -> Seq<Seq<char>>
    decreases k,
{
    if k <= 0 {
        Seq::empty()
    } else {
        owed_category_ids(s0, s1, k - 1) + if s0[k - 1].id is None {
            seq![s1[k - 1].id.unwrap()@]
        } else {
            Seq::empty()
        }
    }
}

/// The attribute-ledger entries owed across the first `k` records.
pub open spec fn owed_attribute_entries_upto(
    s0: Seq<SourceCategory>,
    s1: Seq<SourceCategory>,
    k: int,
) -> Seq<(Seq<char>, Seq<char>)>
    decreases k,
{
    if k <= 0 {
        Seq::empty()
    } else {
        owed_attribute_entries_upto(s0, s1, k - 1) + owed_attr_entries(
            s0[k - 1].attributes@,
            s1[k - 1].attributes@,
            s0[k - 1].attributes@.len() as int,
        )
    }
}

pub open spec fn id_filled_only(o: SourceCategory, n: SourceCategory) -> bool {
    &&& n.name == o.name
    &&& n.parent == o.parent
    &&& n.parent_name == o.parent_name
    &&& n.selectable_as_last == o.selectable_as_last
    &&& (o.id is Some ==> n.id == o.id)
    &&& n.id is Some
    &&& n.attributes@.len() == o.attributes@.len()
    &&& forall|j: int|
        0 <= j < o.attributes@.len() ==> attr_id_filled_only(
            o.attributes@[j],
            #[trigger] n.attributes@[j],
        )
}

/// Whether the write-back record matches what persisting node `i` produces.
pub open spec fn write_matches(nodes: Seq<Category>, i: int, w: CategoryWrite) -> bool {
    &&& w.name == nodes[i].name
    &&& w.category.id == Some(nodes[i].id)
    &&& w.category.parent == (match nodes[i].parent {
        Option::None => Option::<String>::None,
        Option::Some(p) => Option::Some(nodes[p as int].id),
    })
    &&& w.category.parent_name == (match nodes[i].parent {
        Option::None => Option::<String>::None,
        Option::Some(p) => Option::Some(nodes[p as int].name),
    })
    &&& w.category.name == nodes[i].name
    &&& w.category.selectable_as_last == Some(nodes[i].selectable_as_last)
    &&& w.category.attributes@.len() == nodes[i].attributes@.len()
    &&& forall|j: int|
        0 <= j < nodes[i].attributes@.len() ==> w.category.attributes@[j] == nodes[
            i
        ].attributes@[j].spec_to_source()
}

/// Some position of `writes` plans exactly node `i`'s write-back.
pub open spec fn write_planned_for(
    nodes: Seq<Category>,
    writes: Seq<CategoryWrite>,
    i: int,
) -> bool {
    exists|t: int| 0 <= t < writes.len() && #[trigger] write_matches(nodes, i, writes[t])
}

/// How many of the first `k` nodes belong to a mutated fragment.
pub open spec fn planned_count(nodes: Seq<Category>, mutated: Set<Seq<char>>, k: int) -> nat
    decreases k,
{
    if k <= 0 {
        0
    } else {
        planned_count(nodes, mutated, k - 1) + if mutated.contains(nodes[k - 1].name@) {
            1nat
        } else {
            0nat
        }
    }
}

/// One fragment to write back: the name that identifies the fragment and
/// the record to serialize into it.
#[derive(Debug)]
pub struct CategoryWrite {
    pub name: String,
    pub category: SourceCategory,
}

/// The ledger entries issued while generating ids, to be appended to the
/// ledgers as soon as they are produced.
#[derive(Debug)]
pub struct LedgerAppends {
    pub categories: Vec<CategoryEntry>,
    pub attributes: Vec<AttributeEntry>,
}

/// What one reconciliation run decided: the ledger entries to append (owed
/// even when the run fails later), the fragments to write back (only on
/// success), and the run's result.
pub struct CiRunReport {
    pub category_appends: Vec<CategoryEntry>,
    pub attribute_appends: Vec<AttributeEntry>,
    pub writes: Vec<CategoryWrite>,
    pub outcome: Result<(), Error>,
}

/// The reconciliation engine: sequences id generation, name linking, tree
/// assembly, validation and persistence planning over one batch of source
/// fragments. All storage access stays with the caller.
pub struct CI {
    config: Config,
    name_id_links: StringHashMap<String>,
    nodes: Vec<Category>,
    root_categories: Vec<usize>,
    mutated: StringHashMap<bool>,
}

impl CI {
    /// The name-to-id links established so far, as character sequences.
    pub closed spec fn links(&self) -> Map<Seq<char>, Seq<char>> {
        links_view(self.name_id_links@)
    }

    /// The assembled forest.
    pub closed spec fn forest(&self) -> Seq<Category> {
        self.nodes@
    }

    pub closed spec fn roots(&self) -> Seq<usize> {
        self.root_categories@
    }

    /// The names of the fragments mutated by id assignment this run.
    pub closed spec fn mutated_names(&self) -> Set<Seq<char>> {
        self.mutated@.dom()
    }

    pub closed spec fn config_valid_types(&self) -> Seq<Seq<char>> {
        self.config.valid_types()
    }

    pub closed spec fn config_reserved(&self) -> Seq<Seq<char>> {
        self.config.reserved()
    }

    pub closed spec fn wf(&self) -> bool {
        nodes_wf(self.nodes@) && roots_wf(self.nodes@, self.root_categories@)
    }

    /// Starts a run from the given configuration, with nothing linked,
    /// nothing built and nothing mutated yet.
    pub fn try_new(config: Config) -> (r: Result<CI, Error>)
        ensures
            r matches Ok(ci) && ci.links() == Map::<Seq<char>, Seq<char>>::empty()
                && ci.forest() == Seq::<Category>::empty() && ci.roots() == Seq::<usize>::empty()
                && ci.mutated_names() == Set::<Seq<char>>::empty() && ci.config_valid_types()
                == config.valid_types() && ci.config_reserved() == config.reserved() && ci.wf(),
    {
        let ci = CI {
            config,
            name_id_links: StringHashMap::new(),
            nodes: Vec::new(),
            root_categories: Vec::new(),
            mutated: StringHashMap::new(),
        };
        proof {
            assert(ci.mutated_names() =~= Set::<Seq<char>>::empty());
            assert(ci.links() =~= Map::<Seq<char>, Seq<char>>::empty());
        }
        Ok(ci)
    }

    /// Records that `name` belongs to `id`. The first sight of a name
    /// binds it; a later sight bound to a different id fails with
    /// `DuplicatedName`.
    pub fn link_name_with_id(&mut self, name: &str, id: &str) -> (r: Result<(), Error>)
        ensures
            final(self).forest() == old(self).forest(),
            final(self).roots() == old(self).roots(),
            final(self).mutated_names() == old(self).mutated_names(),
            final(self).config_valid_types() == old(self).config_valid_types(),
            final(self).config_reserved() == old(self).config_reserved(),
            old(self).wf() ==> final(self).wf(),
            !old(self).links().contains_key(name@) ==> r is Ok && final(self).links() == old(self).links().insert(name@, id@),
            old(self).links().contains_key(name@) && old(self).links()[name@] == id@ ==> r is Ok
                && final(self).links() == old(self).links(),
            old(self).links().contains_key(name@) && old(self).links()[name@] != id@ ==> (
            r matches Err(e) && e.kind == ErrorKind::DuplicatedName) && final(self).links() == old(self).links(),
    {
        match self.name_id_links.get(name) {
            Some(linked_id) => {
                if !(*linked_id == id.to_owned()) {
                    let mut message = String::from_str("category name '");
                    message.append(name);
                    message.append("' is already linked with a different id: ");
                    message.append(linked_id.as_str());
                    return Err(Error::from_string(ErrorKind::DuplicatedName, message));
                }
                Ok(())
            },
            None => {
                self.name_id_links.insert(name.to_owned(), id.to_owned());
                proof {
                    assert(self.links() =~= old(self).links().insert(name@, id@));
                }
                Ok(())
            },
        }
    }

    /// Appends the category's freshly issued id to the category ledger.
    pub fn update_category_id_tracker(
        &self,
        appends: &mut Vec<CategoryEntry>,
        source_category: &SourceCategory,
    ) -> (r: Result<(), Error>)
        ensures
            source_category.id matches Some(id) ==> r is Ok && final(appends)@.len() == old(appends)@.len() + 1 && final(appends)@.last().id@ == id@ && (forall|j: int|
                0 <= j < old(appends)@.len() ==> final(appends)@[j] == old(appends)@[j]),
            source_category.id is None ==> (r matches Err(e) && e.kind == ErrorKind::MissingId)
                && final(appends)@ == old(appends)@,
    {
        match &source_category.id {
            Some(id) => {
                appends.push(CategoryEntry { id: id.clone() });
                Ok(())
            },
            None => {
                let mut message = String::from_str("category '");
                message.append(source_category.name.as_str());
                message.append("' is missing id");
                Err(Error::from_string(ErrorKind::MissingId, message))
            },
        }
    }

    /// Appends the attribute's freshly issued id, with its data type, to
    /// the attribute ledger.
    pub fn update_attribute_tracker(
        &self,
        appends: &mut Vec<AttributeEntry>,
        source_attribute: &SourceAttribute,
    ) -> (r: Result<(), Error>)
        ensures
            source_attribute.id matches Some(id) ==> r is Ok && final(appends)@.len() == old(appends)@.len() + 1 && final(appends)@.last().id@ == id@ && final(appends)@.last().data_type@ == source_attribute.data_type@ && (forall|j: int|
                0 <= j < old(appends)@.len() ==> final(appends)@[j] == old(appends)@[j]),
            source_attribute.id is None ==> (r matches Err(e) && e.kind == ErrorKind::MissingId)
                && final(appends)@ == old(appends)@,
    {
        match &source_attribute.id {
            Some(id) => {
                appends.push(
                    AttributeEntry { id: id.clone(), data_type: source_attribute.data_type.clone() },
                );
                Ok(())
            },
            None => {
                let mut message = String::from_str("attribute '");
                message.append(source_attribute.name.as_str());
                message.append("' has no id");
                Err(Error::from_string(ErrorKind::MissingId, message))
            },
        }
    }

    /// Assigns a fresh id to every attribute that lacks one, appending each
    /// issued id to the attribute ledger. Returns whether anything was
    /// assigned.
    pub fn generate_ids_for_attributes(
        &self,
        source_attributes: &mut Vec<SourceAttribute>,
        appends: &mut Vec<AttributeEntry>,
    ) -> (r: Result<bool, Error>)
        ensures
            r matches Ok(changed) && {
                &&& final(source_attributes)@.len() == old(source_attributes)@.len()
                &&& (forall|j: int|
                    0 <= j < old(source_attributes)@.len() ==> attr_id_filled_only(
                        old(source_attributes)@[j],
                        #[trigger] final(source_attributes)@[j],
                    ))
                &&& (changed <==> exists|j: int|
                    0 <= j < old(source_attributes)@.len() && (
                    #[trigger] old(source_attributes)@[j].id) is None)
                &&& (forall|j: int|
                    0 <= j < old(appends)@.len() ==> final(appends)@[j] == old(appends)@[j])
                &&& attribute_entry_views(final(appends)@) == attribute_entry_views(
                    old(appends)@,
                ) + owed_attr_entries(
                    old(source_attributes)@,
                    final(source_attributes)@,
                    old(source_attributes)@.len() as int,
                )
                &&& (!changed ==> final(source_attributes)@ == old(source_attributes)@ && final(appends)@ == old(appends)@)
            },
    {
        let mut changed = false;
        let mut j: usize = 0;
        while j < source_attributes.len()
            invariant
                0 <= j <= source_attributes@.len(),
                source_attributes@.len() == old(source_attributes)@.len(),
                forall|t: int|
                    0 <= t < j ==> attr_id_filled_only(
                        old(source_attributes)@[t],
                        #[trigger] source_attributes@[t],
                    ),
                forall|t: int|
                    j <= t < source_attributes@.len() ==> source_attributes@[t] == old(source_attributes)@[t],
                changed <==> exists|t: int|
                    0 <= t < j && (#[trigger] old(source_attributes)@[t].id) is None,
                appends@.len() >= old(appends)@.len(),
                forall|t: int| 0 <= t < old(appends)@.len() ==> appends@[t] == old(appends)@[t],
                attribute_entry_views(appends@) == attribute_entry_views(old(appends)@)
                    + owed_attr_entries(
                    old(source_attributes)@,
                    source_attributes@,
                    j as int,
                ),
                !changed ==> source_attributes@ == old(source_attributes)@ && appends@ == old(appends)@,
            decreases source_attributes@.len() - j,
        {
            let ghost attrs_entry = source_attributes@;
            let has_id = source_attributes[j].id.is_some();
            if !has_id {
                match attribute_id_generator::set_random_id(&mut source_attributes[j]) {
                    Ok(_) => (),
                    Err(error) => {
                        return Err(error);
                    },
                }
                let ghost appends_entry = appends@;
                match self.update_attribute_tracker(appends, &source_attributes[j]) {
                    Ok(_) => (),
                    Err(error) => {
                        return Err(error);
                    },
                }
                changed = true;
                proof {
                    owed_attr_prefix_stable(
                        old(source_attributes)@,
                        attrs_entry,
                        source_attributes@,
                        j as int,
                    );
                    let pair = (
                        source_attributes@[j as int].id.unwrap()@,
                        source_attributes@[j as int].data_type@,
                    );
                    assert(attribute_entry_views(appends@) =~= attribute_entry_views(
                        appends_entry,
                    ).push(pair));
                    assert(owed_attr_entries(
                        old(source_attributes)@,
                        source_attributes@,
                        j as int + 1,
                    ) =~= owed_attr_entries(
                        old(source_attributes)@,
                        source_attributes@,
                        j as int,
                    ).push(pair));
                }
            } else {
                proof {
                    assert(owed_attr_entries(
                        old(source_attributes)@,
                        source_attributes@,
                        j as int + 1,
                    ) =~= owed_attr_entries(
                        old(source_attributes)@,
                        source_attributes@,
                        j as int,
                    ));
                }
            }
            j = j + 1;
        }
        Ok(changed)
    }

    /// Marks the named fragment as mutated by id assignment.
    fn mark_mutated(&mut self, name: &str)
        ensures
            final(self).mutated_names() == old(self).mutated_names().insert(name@),
            final(self).links() == old(self).links(),
            final(self).forest() == old(self).forest(),
            final(self).roots() == old(self).roots(),
            final(self).config_valid_types() == old(self).config_valid_types(),
            final(self).config_reserved() == old(self).config_reserved(),
            old(self).wf() ==> final(self).wf(),
    {
        self.mutated.insert(name.to_owned(), true);
        proof {
            assert(self.mutated_names() =~= old(self).mutated_names().insert(name@));
        }
    }

    /// Links every record's name to its id, assigning a fresh id first to
    /// every record that lacks one; each issued id is collected for the
    /// matching ledger. On input where every record and attribute already
    /// carries an id, nothing is mutated and nothing is appended, and the
    /// outcome depends only on whether the names link consistently.
    pub fn generate_ids(
        &mut self,
        source_categories: &mut Vec<SourceCategory>,
        appends: &mut LedgerAppends,
    ) -> (r: Result<(), Error>)
        ensures
            final(source_categories)@.len() == old(source_categories)@.len(),
            final(self).forest() == old(self).forest(),
            final(self).roots() == old(self).roots(),
            final(self).config_valid_types() == old(self).config_valid_types(),
            final(self).config_reserved() == old(self).config_reserved(),
            old(self).wf() ==> final(self).wf(),
            old(self).mutated_names().subset_of(final(self).mutated_names()),
            r is Ok ==> (forall|i: int|
                0 <= i < old(source_categories)@.len() ==> id_filled_only(
                    old(source_categories)@[i],
                    #[trigger] final(source_categories)@[i],
                )),
            r is Ok ==> (forall|i: int|
                0 <= i < final(source_categories)@.len() ==> final(self).links().contains_key(
                    (#[trigger] final(source_categories)@[i]).name@,
                ) && final(self).links()[final(source_categories)@[i].name@] == final(source_categories)@[i].id.unwrap()@),
            r matches Err(e) ==> e.kind == ErrorKind::DuplicatedName,
            r is Ok ==> crate::categories::category_id_tracker::category_entry_ids(
                final(appends).categories@,
            ) == crate::categories::category_id_tracker::category_entry_ids(
                old(appends).categories@,
            ) + owed_category_ids(
                old(source_categories)@,
                final(source_categories)@,
                old(source_categories)@.len() as int,
            ),
            r is Ok ==> attribute_entry_views(final(appends).attributes@)
                == attribute_entry_views(old(appends).attributes@) + owed_attribute_entries_upto(
                old(source_categories)@,
                final(source_categories)@,
                old(source_categories)@.len() as int,
            ),
            (all_ids_present(old(source_categories)@) && all_attrs_have_ids(
                old(source_categories)@,
            )) ==> {
                let n = old(source_categories)@.len() as int;
                &&& final(source_categories)@ == old(source_categories)@
                &&& final(appends).categories@ == old(appends).categories@
                &&& final(appends).attributes@ == old(appends).attributes@
                &&& final(self).mutated_names() == old(self).mutated_names()
                &&& (r is Ok <==> linking_ok_upto(old(self).links(), old(source_categories)@, n))
                &&& (r is Ok ==> final(self).links() == links_after_upto(
                    old(self).links(),
                    old(source_categories)@,
                    n,
                ))
            },
    {
        let ghost srcs0 = old(source_categories)@;
        let ghost links0 = old(self).links();
        let ghost quiet = all_ids_present(srcs0) && all_attrs_have_ids(srcs0);
        let mut i: usize = 0;
        while i < source_categories.len()
            invariant
                0 <= i <= source_categories@.len(),
                source_categories@.len() == srcs0.len(),
                srcs0 == old(source_categories)@,
                links0 == old(self).links(),
                quiet == (all_ids_present(srcs0) && all_attrs_have_ids(srcs0)),
                self.forest() == old(self).forest(),
                self.roots() == old(self).roots(),
                self.config_valid_types() == old(self).config_valid_types(),
                self.config_reserved() == old(self).config_reserved(),
                old(self).wf() ==> self.wf(),
                old(self).mutated_names().subset_of(self.mutated_names()),
                forall|t: int|
                    0 <= t < i ==> id_filled_only(srcs0[t], #[trigger] source_categories@[t]),
                forall|t: int| i <= t < srcs0.len() ==> source_categories@[t] == srcs0[t],
                forall|t: int|
                    0 <= t < i ==> self.links().contains_key(
                        (#[trigger] source_categories@[t]).name@,
                    ) && self.links()[source_categories@[t].name@] == source_categories@[
                        t
                    ].id.unwrap()@,
                crate::categories::category_id_tracker::category_entry_ids(appends.categories@)
                    == crate::categories::category_id_tracker::category_entry_ids(
                    old(appends).categories@,
                ) + owed_category_ids(srcs0, source_categories@, i as int),
                attribute_entry_views(appends.attributes@) == attribute_entry_views(
                    old(appends).attributes@,
                ) + owed_attribute_entries_upto(srcs0, source_categories@, i as int),
                quiet ==> source_categories@ == srcs0 && appends.categories@
                    == old(appends).categories@ && appends.attributes@ == old(appends).attributes@ && self.mutated_names() == old(self).mutated_names()
                    && self.links() == links_after_upto(links0, srcs0, i as int)
                    && linking_ok_upto(links0, srcs0, i as int),
            decreases source_categories@.len() - i,
        {
            let ghost srcs_entry = source_categories@;
            let ghost cat_appends_entry = appends.categories@;
            let id_opt: Option<String> = match &source_categories[i].id {
                Some(id) => Some(id.clone()),
                None => None,
            };
            match id_opt {
                Some(id) => {
                    let name = source_categories[i].name.clone();
                    match self.link_name_with_id(name.as_str(), id.as_str()) {
                        Ok(_) => (),
                        Err(error) => {
                            proof {
                                if quiet {
                                    assert(!linking_ok_upto(links0, srcs0, i as int + 1));
                                    linking_prefix_fails(
                                        links0,
                                        srcs0,
                                        i as int + 1,
                                        srcs0.len() as int,
                                    );
                                }
                            }
                            return Err(error);
                        },
                    }
                    proof {
                        if quiet {
                            assert(linking_ok_upto(links0, srcs0, i as int + 1));
                            assert(self.links() == links_after_upto(links0, srcs0, i as int + 1));
                        }
                    }
                },
                None => {
                    match category_id_generator::set_random_id(&mut source_categories[i]) {
                        Ok(_) => (),
                        Err(error) => {
                            return Err(error);
                        },
                    }
                    let name = source_categories[i].name.clone();
                    let id: String = match &source_categories[i].id {
                        Some(id) => id.clone(),
                        None => {
                            return Err(
                                Error::new(
                                    ErrorKind::MissingId,
                                    "category is missing id after setting a random one",
                                ),
                            );
                        },
                    };
                    match self.link_name_with_id(name.as_str(), id.as_str()) {
                        Ok(_) => (),
                        Err(error) => {
                            return Err(error);
                        },
                    }
                    let ghost before_push = appends.categories@;
                    match self.update_category_id_tracker(
                        &mut appends.categories,
                        &source_categories[i],
                    ) {
                        Ok(_) => (),
                        Err(error) => {
                            return Err(error);
                        },
                    }
                    self.mark_mutated(name.as_str());
                    proof {
                        assert(crate::categories::category_id_tracker::category_entry_ids(
                            appends.categories@,
                        ) =~= crate::categories::category_id_tracker::category_entry_ids(
                            before_push,
                        ).push(source_categories@[i as int].id.unwrap()@));
                    }
                },
            }
            // Only touch the attribute list when something is actually
            // missing, so an already-stable record stays untouched.
            let attr_total = source_categories[i].attributes.len();
            let mut any_attr_missing = false;
            let mut j: usize = 0;
            while j < attr_total
                invariant
                    0 <= j <= attr_total,
                    0 <= i < source_categories@.len(),
                    attr_total == source_categories@[i as int].attributes@.len(),
                    any_attr_missing <==> exists|t: int|
                        0 <= t < j && (#[trigger] source_categories@[i as int].attributes@[t].id)
                            is None,
                decreases attr_total - j,
            {
                if source_categories[i].attributes[j].id.is_none() {
                    any_attr_missing = true;
                }
                j = j + 1;
            }
            let changed: bool;
            if any_attr_missing {
                changed = match self.generate_ids_for_attributes(
                    &mut source_categories[i].attributes,
                    &mut appends.attributes,
                ) {
                    Ok(changed) => changed,
                    Err(error) => {
                        return Err(error);
                    },
                };
            } else {
                changed = false;
                proof {
                    owed_attr_all_present(
                        source_categories@[i as int].attributes@,
                        source_categories@[i as int].attributes@,
                        attr_total as int,
                    );
                }
            }
            if changed {
                let name = source_categories[i].name.clone();
                self.mark_mutated(name.as_str());
            }
            proof {
                let cur = source_categories@;
                owed_category_prefix_stable(srcs0, srcs_entry, cur, i as int);
                assert(owed_category_ids(srcs0, cur, i as int + 1) =~= owed_category_ids(
                    srcs0,
                    cur,
                    i as int,
                ) + if srcs0[i as int].id is None {
                    seq![cur[i as int].id.unwrap()@]
                } else {
                    Seq::<Seq<char>>::empty()
                });
                assert(owed_attribute_entries_upto(srcs0, cur, i as int + 1)
                    =~= owed_attribute_entries_upto(srcs0, cur, i as int) + owed_attr_entries(
                    srcs0[i as int].attributes@,
                    cur[i as int].attributes@,
                    srcs0[i as int].attributes@.len() as int,
                ));
                if quiet {
                    assert(source_attrs_have_ids(srcs0[i as int]));
                    assert(source_categories@ =~= srcs0);
                }
            }
            i = i + 1;
        }
        Ok(())
    }
}

impl CI {
    /// Resolves each record's parent name through the linker and assembles
    /// the ownership forest. It succeeds exactly when every referenced
    /// parent name is linked, every record reaches a root through its
    /// parent references, and every attribute carries an id — regardless
    /// of the order in which the records were ingested.
    pub fn map_source_categories(&mut self, source_categories: &Vec<SourceCategory>) -> (r: Result<
        (),
        Error,
    >)
        requires
            old(self).forest().len() == 0,
            old(self).roots().len() == 0,
            all_ids_present(source_categories@),
            source_categories@.len() < usize::MAX,
        ensures
            final(self).wf(),
            final(self).links() == old(self).links(),
            final(self).mutated_names() == old(self).mutated_names(),
            final(self).config_valid_types() == old(self).config_valid_types(),
            final(self).config_reserved() == old(self).config_reserved(),
            r is Ok <==> all_parents_linked(old(self).links(), source_categories@) && (exists|
                pids: Seq<Option<String>>,
            |
                parent_ids_match(old(self).links(), source_categories@, pids) && forest_buildable(
                    source_categories@,
                    pids,
                )) && all_attrs_have_ids(source_categories@),
            r is Ok ==> exists|pids: Seq<Option<String>>, order: Seq<int>|
                parent_ids_match(old(self).links(), source_categories@, pids)
                    && source_permutation(source_categories@, final(self).forest(), order) && (
                forall|k: int|
                    0 <= k < order.len() ==> node_edges_match(
                        source_categories@,
                        pids,
                        final(self).forest(),
                        order,
                        k,
                    )),
            forall|t: int|
                0 <= t < final(self).roots().len() ==> ((#[trigger] final(self).roots()[t]) as int)
                    < final(self).forest().len() && (final(self).forest()[final(self).roots()[
                    t
                ] as int].parent) is None,
            forall|k: int|
                0 <= k < final(self).forest().len() && ((#[trigger] final(self).forest()[
                    k
                ].parent)) is None ==> final(self).roots().contains(k as usize),
            r matches Err(e) ==> e.kind == ErrorKind::ParentNotFound || e.kind
                == ErrorKind::ParentNotAvailable || e.kind == ErrorKind::MissingId,
    {
        let mut parent_ids: Vec<Option<String>> = Vec::new();
        let mut i: usize = 0;
        while i < source_categories.len()
            invariant
                0 <= i <= source_categories@.len(),
                parent_ids@.len() == i,
                self == old(self),
                self.forest().len() == 0,
                self.roots().len() == 0,
                forall|t: int|
                    0 <= t < i ==> match #[trigger] source_categories@[t].parent_name {
                        Option::None => parent_ids@[t] is None,
                        Option::Some(p) => parent_ids@[t] matches Some(v) && v@
                            == old(self).links()[p@],
                    },
                forall|t: int|
                    0 <= t < i ==> ((#[trigger] source_categories@[t].parent_name) matches Some(p)
                        ==> old(self).links().contains_key(p@)),
            decreases source_categories@.len() - i,
        {
            let pid: Option<String> = match &source_categories[i].parent_name {
                None => None,
                Some(parent_name) => {
                    match self.name_id_links.get(parent_name.as_str()) {
                        Some(id) => Some(id.clone()),
                        None => {
                            let mut message = String::from_str("category name '");
                            message.append(parent_name.as_str());
                            message.append("' is not linked with an id");
                            proof {
                                assert(nodes_wf(self.forest()));
                                assert(roots_wf(self.forest(), self.roots()));
                            }
                            return Err(Error::from_string(ErrorKind::ParentNotFound, message));
                        },
                    }
                },
            };
            parent_ids.push(pid);
            i = i + 1;
        }
        let built = build_forest(
            &mut self.nodes,
            &mut self.root_categories,
            source_categories,
            &parent_ids,
        );
        proof {
            assert(parent_ids_match(old(self).links(), source_categories@, parent_ids@));
            if built is Err {
                if all_attrs_have_ids(source_categories@) {
                    assert(!forest_buildable(source_categories@, parent_ids@));
                    assert forall|pids: Seq<Option<String>>|
                        parent_ids_match(
                            old(self).links(),
                            source_categories@,
                            pids,
                        ) implies !forest_buildable(source_categories@, pids) by {
                        assert forall|t: int|
                            0 <= t < source_categories@.len() implies ((
                        #[trigger] parent_ids@[t]) is None <==> pids[t] is None) && (
                        parent_ids@[t] matches Some(a) ==> (pids[t] matches Some(b) && a@
                            == b@)) by {
                            assert(match source_categories@[t].parent_name {
                                Option::None => parent_ids@[t] is None,
                                Option::Some(p) => parent_ids@[t] matches Some(v) && v@
                                    == old(self).links()[p@],
                            });
                            assert(match source_categories@[t].parent_name {
                                Option::None => pids[t] is None,
                                Option::Some(p) => pids[t] matches Some(v) && v@
                                    == old(self).links()[p@],
                            });
                        }
                        crate::categories::tree_builder::lemma_buildable_view_eq(
                            source_categories@,
                            parent_ids@,
                            pids,
                        );
                    }
                }
            } else {
                assert(forest_buildable(source_categories@, parent_ids@));
                let order = choose|order: Seq<int>|
                    source_permutation(source_categories@, self.nodes@, order) && (forall|k: int|
                        0 <= k < order.len() ==> node_edges_match(
                            source_categories@,
                            parent_ids@,
                            self.nodes@,
                            order,
                            k,
                        ));
                assert(source_permutation(source_categories@, self.forest(), order));
            }
        }
        match built {
            Ok(_) => Ok(()),
            Err(error) => Err(error),
        }
    }

    /// Builds the attribute validations, each seeded from the attribute
    /// ledger or from the configuration.
    pub fn initialize_attributes_validations(&self, attribute_entries: &Vec<AttributeEntry>) -> (r:
        (IdTrackingValidation, DataTypeConstantValidation, DataTypeValidation, ReservedAttributeNamesValidation))
        ensures
            r.0.wf() && r.0.pending() == crate::attributes::attribute_id_tracker::attribute_entries_map(attribute_entries@)
                && r.0.found() == Set::<Seq<char>>::empty(),
            r.1.wf() && r.1.expected() == crate::attributes::attribute_id_tracker::attribute_entries_map(attribute_entries@)
                && r.1.compared_pairs() == Seq::<(Seq<char>, Attribute)>::empty(),
            r.2.wf() && r.2.allowed() == self.config_valid_types() && r.2.checked_attrs()
                == Seq::<Attribute>::empty(),
            r.3.reserved() == self.config_reserved(),
    {
        let tracking = IdTrackingValidation::new(attribute_entries);
        let types = DataTypeValidation::new(self.config.valid_data_types());
        let constant = DataTypeConstantValidation::new(attribute_entries);
        let reserved = ReservedAttributeNamesValidation::new(self.config.reserved_keywords());
        (tracking, constant, types, reserved)
    }

    /// Runs every attribute validation over one category's attributes, in
    /// pipeline order.
    pub fn run_attributes_validations_for_category(
        &self,
        tracking: &mut IdTrackingValidation,
        constant: &mut DataTypeConstantValidation,
        types: &mut DataTypeValidation,
        reserved: &mut ReservedAttributeNamesValidation,
        category: &Category,
    ) -> (r: Result<(), Error>)
        requires
            old(tracking).wf(),
            old(constant).wf(),
            old(types).wf(),
        ensures
            final(tracking).wf(),
            final(constant).wf(),
            final(types).wf(),
            final(types).allowed() == old(types).allowed(),
            final(reserved).reserved() == old(reserved).reserved(),
            r is Ok <==> track_ids_ok(old(tracking).pending(), attribute_ids(category.attributes@))
                && ids_validated_once(old(constant).expected(), category.attributes@) && (forall|
                j: int,
            |
                0 <= j < category.attributes@.len() ==> !name_reserved(
                    old(reserved).reserved(),
                    category.attributes@[j].name@,
                )),
            r is Ok ==> final(tracking).pending() == after_tracking(
                old(tracking).pending(),
                attribute_ids(category.attributes@),
            ) && final(tracking).found() == found_after(
                old(tracking).found(),
                attribute_ids(category.attributes@),
            ) && final(constant).expected() == expectations_after(
                old(constant).expected(),
                category.attributes@,
            ) && final(constant).compared_pairs() == old(constant).compared_pairs() + comparisons(
                old(constant).expected(),
                category.attributes@,
            ) && final(types).checked_attrs() == old(types).checked_attrs()
                + category.attributes@,
            r matches Err(e) ==> e.kind == ErrorKind::DuplicatedId || e.kind
                == ErrorKind::IdNotFound || e.kind == ErrorKind::ReservedKeywordUsedAsName,
    {
        match tracking.partially_validate(category.attributes.as_slice()) {
            Ok(_) => (),
            Err(error) => {
                return Err(error);
            },
        }
        match types.partially_validate(category.attributes.as_slice()) {
            Ok(_) => (),
            Err(error) => {
                return Err(error);
            },
        }
        match constant.partially_validate(category.attributes.as_slice()) {
            Ok(_) => (),
            Err(error) => {
                return Err(error);
            },
        }
        match reserved.partially_validate(category.attributes.as_slice()) {
            Ok(_) => (),
            Err(error) => {
                return Err(error);
            },
        }
        Ok(())
    }

    /// Runs the attribute validations over the whole forest, in arena
    /// order, then completes each of them: ids confirmed against the
    /// ledger exactly once and exhaustively, recorded data types unchanged,
    /// data types whitelisted, no reserved name.
    pub fn run_attributes_validations(&self, attribute_entries: &Vec<AttributeEntry>) -> (r: Result<
        (),
        Error,
    >)
        ensures
            r is Ok <==> {
                let m0 = crate::attributes::attribute_id_tracker::attribute_entries_map(
                    attribute_entries@,
                );
                let n = self.forest().len() as int;
                &&& attr_track_ok_upto(m0, self.forest(), n)
                &&& attr_track_map_upto(m0, self.forest(), n).dom().is_empty()
                &&& constant_ok_upto(m0, self.forest(), n)
                &&& (forall|t: int|
                    0 <= t < constant_pairs_upto(m0, self.forest(), n).len()
                        ==> comparison_holds(
                        #[trigger] constant_pairs_upto(m0, self.forest(), n)[t],
                    ))
                &&& (forall|t: int|
                    0 <= t < attrs_upto(self.forest(), n).len() ==> data_type_ok(
                        self.config_valid_types(),
                        attrs_upto(self.forest(), n)[t].data_type@,
                    ))
                &&& (forall|t: int, j: int|
                    0 <= t < self.forest().len() && 0 <= j < self.forest()[t].attributes@.len()
                        ==> !name_reserved(
                        self.config_reserved(),
                        #[trigger] self.forest()[t].attributes@[j].name@,
                    ))
            },
            r matches Err(e) ==> e.kind == ErrorKind::DuplicatedId || e.kind
                == ErrorKind::IdNotFound || e.kind == ErrorKind::ReservedKeywordUsedAsName
                || e.kind == ErrorKind::IdNotTracked || e.kind
                == ErrorKind::FailedDataTypeConstantAttributeValidation || e.kind
                == ErrorKind::FailedDataTypeAttributeValidation,
    {
        let ghost m0 = crate::attributes::attribute_id_tracker::attribute_entries_map(
            attribute_entries@,
        );
        let ghost n = self.forest().len() as int;
        let (mut tracking, mut constant, mut types, mut reserved) =
            self.initialize_attributes_validations(attribute_entries);
        let mut k: usize = 0;
        while k < self.nodes.len()
            invariant
                0 <= k <= self.forest().len(),
                n == self.forest().len() as int,
                m0 == crate::attributes::attribute_id_tracker::attribute_entries_map(
                    attribute_entries@,
                ),
                tracking.wf(),
                constant.wf(),
                types.wf(),
                types.allowed() == self.config_valid_types(),
                reserved.reserved() == self.config_reserved(),
                attr_track_ok_upto(m0, self.forest(), k as int),
                tracking.pending() == attr_track_map_upto(m0, self.forest(), k as int),
                tracking.found() == attr_found_upto(self.forest(), k as int),
                constant_ok_upto(m0, self.forest(), k as int),
                constant.expected() == constant_map_upto(m0, self.forest(), k as int),
                constant.compared_pairs() == constant_pairs_upto(m0, self.forest(), k as int),
                types.checked_attrs() == attrs_upto(self.forest(), k as int),
                forall|t: int, j: int|
                    0 <= t < k && 0 <= j < self.forest()[t].attributes@.len()
                        ==> !name_reserved(
                        self.config_reserved(),
                        #[trigger] self.forest()[t].attributes@[j].name@,
                    ),
            decreases self.forest().len() - k,
        {
            match self.run_attributes_validations_for_category(
                &mut tracking,
                &mut constant,
                &mut types,
                &mut reserved,
                &self.nodes[k],
            ) {
                Ok(_) => (),
                Err(error) => {
                    proof {
                        let attrs = self.forest()[k as int].attributes@;
                        if !track_ids_ok(attr_track_map_upto(m0, self.forest(), k as int), attribute_ids(attrs)) {
                            assert(!attr_track_ok_upto(m0, self.forest(), k as int + 1));
                            attr_track_prefix_fails(m0, self.forest(), k as int + 1, n);
                        } else if !ids_validated_once(constant_map_upto(m0, self.forest(), k as int), attrs) {
                            assert(!constant_ok_upto(m0, self.forest(), k as int + 1));
                            constant_prefix_fails(m0, self.forest(), k as int + 1, n);
                        } else {
                            let j = choose|j: int|
                                0 <= j < attrs.len() && name_reserved(
                                    self.config_reserved(),
                                    attrs[j].name@,
                                );
                            assert(name_reserved(
                                self.config_reserved(),
                                self.forest()[k as int].attributes@[j].name@,
                            ));
                        }
                    }
                    return Err(error);
                },
            }
            k = k + 1;
        }
        match tracking.complete() {
            Ok(_) => (),
            Err(error) => {
                return Err(error);
            },
        }
        match types.complete() {
            Ok(_) => (),
            Err(error) => {
                return Err(error);
            },
        }
        match constant.complete() {
            Ok(_) => (),
            Err(error) => {
                return Err(error);
            },
        }
        match reserved.complete() {
            Ok(_) => (),
            Err(error) => {
                return Err(error);
            },
        }
        Ok(())
    }
}

impl CI {
    /// Runs the validation pipeline in order: category id tracking, the
    /// selectable-as-last invariant, then the attribute validations.
    pub fn run_validations(
        &self,
        category_entries: Vec<CategoryEntry>,
        attribute_entries: &Vec<AttributeEntry>,
    ) -> (r: Result<(), Error>)
        requires
            self.wf(),
        ensures
            r is Ok <==> self.validations_pass(category_entries@, attribute_entries@),
            r matches Err(e) ==> e.kind == ErrorKind::DuplicatedId || e.kind
                == ErrorKind::IdNotFound || e.kind == ErrorKind::IdNotTracked || e.kind
                == ErrorKind::LastCategoryNotSelectable || e.kind
                == ErrorKind::ReservedKeywordUsedAsName || e.kind
                == ErrorKind::FailedDataTypeConstantAttributeValidation || e.kind
                == ErrorKind::FailedDataTypeAttributeValidation,
    {
        let id_tracking_validation = category_id_tracking::IdTrackingValidation::new();
        match id_tracking_validation.validate(category_entries, &self.nodes) {
            Ok(_) => (),
            Err(error) => {
                return Err(error);
            },
        }
        let selectable = SelectableAsLastValidation::new();
        match selectable.validate(&self.nodes, &self.root_categories) {
            Ok(_) => (),
            Err(error) => {
                return Err(error);
            },
        }
        match self.run_attributes_validations(attribute_entries) {
            Ok(_) => (),
            Err(error) => {
                return Err(error);
            },
        }
        Ok(())
    }

    /// Everything the validation pipeline checks, over the assembled
    /// forest and the two ledgers.
    pub open spec fn validations_pass(
        &self,
        category_entries: Seq<CategoryEntry>,
        attribute_entries: Seq<AttributeEntry>,
    ) -> bool {
        let cat_map = category_entries_map(category_entries);
        let attr_map = crate::attributes::attribute_id_tracker::attribute_entries_map(
            attribute_entries,
        );
        let nodes = self.forest();
        let n = nodes.len() as int;
        &&& track_ids_ok(cat_map, category_id_tracking::category_ids(nodes))
        &&& after_tracking(cat_map, category_id_tracking::category_ids(nodes)).dom().is_empty()
        &&& forest_selectable_ok(nodes, self.roots())
        &&& attr_track_ok_upto(attr_map, nodes, n)
        &&& attr_track_map_upto(attr_map, nodes, n).dom().is_empty()
        &&& constant_ok_upto(attr_map, nodes, n)
        &&& (forall|t: int|
            0 <= t < constant_pairs_upto(attr_map, nodes, n).len() ==> comparison_holds(
                #[trigger] constant_pairs_upto(attr_map, nodes, n)[t],
            ))
        &&& (forall|t: int|
            0 <= t < attrs_upto(nodes, n).len() ==> data_type_ok(
                self.config_valid_types(),
                attrs_upto(nodes, n)[t].data_type@,
            ))
        &&& (forall|t: int, j: int|
            0 <= t < nodes.len() && 0 <= j < nodes[t].attributes@.len() ==> !name_reserved(
                self.config_reserved(),
                #[trigger] nodes[t].attributes@[j].name@,
            ))
    }

    /// Some mutated category of the forest produces exactly this write.
    pub open spec fn write_planned(
        nodes: Seq<Category>,
        mutated: Set<Seq<char>>,
        w: CategoryWrite,
    ) -> bool {
        exists|i: int|
            0 <= i < nodes.len() && #[trigger] write_matches(nodes, i, w) && mutated.contains(
                nodes[i].name@,
            )
    }

    /// Plans the write-back of one category: mutated fragments get their
    /// resolved record appended to the write list, untouched ones do not.
    pub fn apply_changes_for_category(&self, index: usize, writes: &mut Vec<CategoryWrite>) -> (r:
        Result<(), Error>)
        requires
            self.wf(),
            (index as int) < self.forest().len(),
        ensures
            r is Ok,
            self.mutated_names().contains(self.forest()[index as int].name@) ==> final(writes)@.len() == old(writes)@.len() + 1 && write_matches(
                self.forest(),
                index as int,
                final(writes)@.last(),
            ) && (forall|t: int| 0 <= t < old(writes)@.len() ==> final(writes)@[t] == old(writes)@[t]),
            !self.mutated_names().contains(self.forest()[index as int].name@) ==> final(writes)@
                == old(writes)@,
    {
        proof {
            assert(crate::categories::category::node_wf(self.forest(), index as int));
        }
        let category = &self.nodes[index];
        if !self.mutated.contains_key(category.name.as_str()) {
            return Ok(());
        }
        let (parent, parent_name) = match category.parent {
            Some(p) => {
                let parent_node = &self.nodes[p];
                (Some(parent_node.id.clone()), Some(parent_node.name.clone()))
            },
            None => (None, None),
        };
        let record = SourceCategory {
            id: Some(category.id.clone()),
            parent,
            parent_name,
            name: category.name.clone(),
            selectable_as_last: Some(category.selectable_as_last),
            attributes: Attribute::to_source_attributes(category.attributes.as_slice()),
        };
        writes.push(CategoryWrite { name: category.name.clone(), category: record });
        Ok(())
    }

    /// Plans the write-back pass: exactly the fragments mutated by id
    /// assignment are rewritten, in arena order.
    pub fn apply_changes(&self) -> (r: Result<Vec<CategoryWrite>, Error>)
        requires
            self.wf(),
        ensures
            r matches Ok(writes) && {
                &&& (forall|t: int|
                    0 <= t < writes@.len() ==> CI::write_planned(
                        self.forest(),
                        self.mutated_names(),
                        #[trigger] writes@[t],
                    ))
                &&& (forall|i: int|
                    0 <= i < self.forest().len() && self.mutated_names().contains(
                        (#[trigger] self.forest()[i]).name@,
                    ) ==> write_planned_for(self.forest(), writes@, i))
                &&& writes@.len() == planned_count(
                    self.forest(),
                    self.mutated_names(),
                    self.forest().len() as int,
                )
                &&& ((forall|i: int|
                    0 <= i < self.forest().len() ==> !self.mutated_names().contains(
                        (#[trigger] self.forest()[i]).name@,
                    )) ==> writes@.len() == 0)
            },
    {
        let mut writes: Vec<CategoryWrite> = Vec::new();
        let mut i: usize = 0;
        while i < self.nodes.len()
            invariant
                0 <= i <= self.forest().len(),
                self.wf(),
                forall|t: int|
                    0 <= t < writes@.len() ==> CI::write_planned(
                        self.forest(),
                        self.mutated_names(),
                        #[trigger] writes@[t],
                    ),
                forall|i0: int|
                    0 <= i0 < i && self.mutated_names().contains(
                        (#[trigger] self.forest()[i0]).name@,
                    ) ==> write_planned_for(self.forest(), writes@, i0),
                writes@.len() == planned_count(self.forest(), self.mutated_names(), i as int),
            decreases self.forest().len() - i,
        {
            let ghost writes_before = writes@;
            match self.apply_changes_for_category(i, &mut writes) {
                Ok(_) => (),
                Err(error) => {
                    return Err(error);
                },
            }
            proof {
                assert forall|t: int|
                    0 <= t < writes@.len() implies CI::write_planned(
                    self.forest(),
                    self.mutated_names(),
                    #[trigger] writes@[t],
                ) by {
                    if t < writes_before.len() {
                        assert(writes@[t] == writes_before[t]);
                    } else {
                        assert(write_matches(self.forest(), i as int, writes@[t]));
                    }
                }
                assert forall|i0: int|
                    0 <= i0 < i + 1 && self.mutated_names().contains(
                    (#[trigger] self.forest()[i0]).name@,
                ) implies write_planned_for(self.forest(), writes@, i0) by {
                    if i0 < i as int {
                        let t = choose|t: int|
                            0 <= t < writes_before.len() && #[trigger] write_matches(
                                self.forest(),
                                i0,
                                writes_before[t],
                            );
                        assert(writes@[t] == writes_before[t]);
                        assert(write_matches(self.forest(), i0, writes@[t]));
                    } else {
                        assert(write_matches(self.forest(), i as int, writes@.last()));
                        assert(writes@[writes@.len() - 1] == writes@.last());
                    }
                }
            }
            i = i + 1;
        }
        proof {
            if forall|i0: int|
                0 <= i0 < self.forest().len() ==> !self.mutated_names().contains(
                    (#[trigger] self.forest()[i0]).name@,
                ) {
                planned_count_none(self.forest(), self.mutated_names(), self.forest().len() as int);
            }
        }
        Ok(writes)
    }

    /// One full reconciliation: id generation (with immediate ledger
    /// appends), name linking, tree assembly, validation against the
    /// ledgers as they stand after the appends, and persistence planning.
    /// Fragments are written back only when the whole run passed. On a
    /// run whose records all carry their ids already, nothing is appended,
    /// nothing is written, and the outcome is decided exactly by the
    /// linking, tree-assembly and validation conditions — so rerunning
    /// over unchanged storage succeeds with no effect.
    pub fn run_ci_logic(
        &mut self,
        source_categories: Vec<SourceCategory>,
        category_entries: Vec<CategoryEntry>,
        attribute_entries: Vec<AttributeEntry>,
    ) -> (report: CiRunReport)
        requires
            old(self).forest().len() == 0,
            old(self).roots().len() == 0,
            old(self).mutated_names() == Set::<Seq<char>>::empty(),
            source_categories@.len() < usize::MAX,
        ensures
            final(self).wf(),
            report.outcome is Err ==> report.writes@.len() == 0,
            (all_ids_present(source_categories@) && all_attrs_have_ids(source_categories@)) ==> (
            report.category_appends@.len() == 0 && report.attribute_appends@.len() == 0
                && report.writes@.len() == 0),
            report.outcome is Ok ==> final(self).validations_pass(
                category_entries@ + report.category_appends@,
                attribute_entries@ + report.attribute_appends@,
            ),
            report.outcome is Ok ==> exists|srcs2: Seq<SourceCategory>, order: Seq<int>|
                srcs2.len() == source_categories@.len() && (forall|i: int|
                    0 <= i < srcs2.len() ==> id_filled_only(
                        source_categories@[i],
                        #[trigger] srcs2[i],
                    )) && source_permutation(srcs2, final(self).forest(), order),
            (all_ids_present(source_categories@) && all_attrs_have_ids(source_categories@)
                && report.outcome is Ok) ==> exists|order: Seq<int>|
                source_permutation(source_categories@, final(self).forest(), order),
            (all_ids_present(source_categories@) && all_attrs_have_ids(source_categories@)) ==> {
                let n = source_categories@.len() as int;
                let links1 = links_after_upto(old(self).links(), source_categories@, n);
                report.outcome is Ok <==> linking_ok_upto(old(self).links(), source_categories@, n)
                    && all_parents_linked(links1, source_categories@) && (exists|
                    pids: Seq<Option<String>>,
                |
                    parent_ids_match(links1, source_categories@, pids) && forest_buildable(
                        source_categories@,
                        pids,
                    )) && final(self).validations_pass(category_entries@, attribute_entries@)
            },
            report.outcome matches Err(e) ==> e.kind == ErrorKind::DuplicatedName || e.kind
                == ErrorKind::MissingId || e.kind == ErrorKind::ParentNotAvailable || e.kind
                == ErrorKind::ParentNotFound || e.kind
                == ErrorKind::DuplicatedId || e.kind == ErrorKind::IdNotFound || e.kind
                == ErrorKind::IdNotTracked || e.kind == ErrorKind::LastCategoryNotSelectable
                || e.kind == ErrorKind::ReservedKeywordUsedAsName || e.kind
                == ErrorKind::FailedDataTypeConstantAttributeValidation || e.kind
                == ErrorKind::FailedDataTypeAttributeValidation,
    {
        let mut sources = source_categories;
        let mut appends = LedgerAppends { categories: Vec::new(), attributes: Vec::new() };
        let ghost quiet = all_ids_present(source_categories@) && all_attrs_have_ids(
            source_categories@,
        );
        match self.generate_ids(&mut sources, &mut appends) {
            Ok(_) => (),
            Err(error) => {
                return CiRunReport {
                    category_appends: appends.categories,
                    attribute_appends: appends.attributes,
                    writes: Vec::new(),
                    outcome: Err(error),
                };
            },
        }
        match self.map_source_categories(&sources) {
            Ok(_) => (),
            Err(error) => {
                return CiRunReport {
                    category_appends: appends.categories,
                    attribute_appends: appends.attributes,
                    writes: Vec::new(),
                    outcome: Err(error),
                };
            },
        }
        proof {
            if quiet {
                let order = choose|order: Seq<int>|
                    source_permutation(sources@, self.forest(), order);
                assert(source_permutation(source_categories@, self.forest(), order));
            }
        }
        let mut combined_categories = category_entries;
        let mut c: usize = 0;
        while c < appends.categories.len()
            invariant
                0 <= c <= appends.categories@.len(),
                combined_categories@.len() == category_entries@.len() + c,
                forall|t: int|
                    0 <= t < category_entries@.len() ==> combined_categories@[t]
                        == category_entries@[t],
                forall|t: int|
                    0 <= t < c ==> combined_categories@[category_entries@.len() + t]
                        == appends.categories@[t],
            decreases appends.categories@.len() - c,
        {
            combined_categories.push(CategoryEntry { id: appends.categories[c].id.clone() });
            c = c + 1;
        }
        let mut combined_attributes = attribute_entries;
        let mut a: usize = 0;
        while a < appends.attributes.len()
            invariant
                0 <= a <= appends.attributes@.len(),
                combined_attributes@.len() == attribute_entries@.len() + a,
                forall|t: int|
                    0 <= t < attribute_entries@.len() ==> combined_attributes@[t]
                        == attribute_entries@[t],
                forall|t: int|
                    0 <= t < a ==> combined_attributes@[attribute_entries@.len() + t]
                        == appends.attributes@[t],
            decreases appends.attributes@.len() - a,
        {
            combined_attributes.push(
                AttributeEntry {
                    id: appends.attributes[a].id.clone(),
                    data_type: appends.attributes[a].data_type.clone(),
                },
            );
            a = a + 1;
        }
        proof {
            assert(combined_categories@ =~= category_entries@ + appends.categories@);
            assert(combined_attributes@ =~= attribute_entries@ + appends.attributes@);
            if quiet {
                assert(combined_categories@ =~= category_entries@);
                assert(combined_attributes@ =~= attribute_entries@);
            }
        }
        match self.run_validations(combined_categories, &combined_attributes) {
            Ok(_) => (),
            Err(error) => {
                return CiRunReport {
                    category_appends: appends.categories,
                    attribute_appends: appends.attributes,
                    writes: Vec::new(),
                    outcome: Err(error),
                };
            },
        }
        let writes = match self.apply_changes() {
            Ok(writes) => writes,
            Err(error) => {
                return CiRunReport {
                    category_appends: appends.categories,
                    attribute_appends: appends.attributes,
                    writes: Vec::new(),
                    outcome: Err(error),
                };
            },
        };
        proof {
            let order = choose|order: Seq<int>|
                source_permutation(sources@, self.forest(), order);
            assert(source_permutation(sources@, self.forest(), order));
        }
        CiRunReport {
            category_appends: appends.categories,
            attribute_appends: appends.attributes,
            writes,
            outcome: Ok(()),
        }
    }
}

/// An attribute-tracking sequence with a failing prefix fails as a whole.
proof fn attr_track_prefix_fails(
    m0: Map<Seq<char>, String>,
    nodes: Seq<Category>,
    k: int,
    n: int,
)
    requires
        0 <= k <= n,
        !attr_track_ok_upto(m0, nodes, k),
    ensures
        !attr_track_ok_upto(m0, nodes, n),
    decreases n - k,
{
    if k < n {
        attr_track_prefix_fails(m0, nodes, k + 1, n);
    }
}

/// An immutability-check sequence with a failing prefix fails as a whole.
proof fn constant_prefix_fails(m0: Map<Seq<char>, String>, nodes: Seq<Category>, k: int, n: int)
    requires
        0 <= k <= n,
        !constant_ok_upto(m0, nodes, k),
    ensures
        !constant_ok_upto(m0, nodes, n),
    decreases n - k,
{
    if k < n {
        constant_prefix_fails(m0, nodes, k + 1, n);
    }
}

/// With nothing mutated, nothing is planned.
pub(crate) proof fn planned_count_none(nodes: Seq<Category>, mutated: Set<Seq<char>>, k: int)
    requires
        forall|i0: int|
            0 <= i0 < nodes.len() ==> !mutated.contains((#[trigger] nodes[i0]).name@),
        k <= nodes.len(),
    ensures
        planned_count(nodes, mutated, k) == 0,
    decreases k,
{
    if k > 0 {
        planned_count_none(nodes, mutated, k - 1);
    }
}

/// What is owed for a prefix depends only on that prefix.
proof fn owed_attr_prefix_stable(
    a0: Seq<SourceAttribute>,
    c1: Seq<SourceAttribute>,
    c2: Seq<SourceAttribute>,
    k: int,
)
    requires
        forall|t: int| 0 <= t < k ==> c1[t] == c2[t],
    ensures
        owed_attr_entries(a0, c1, k) == owed_attr_entries(a0, c2, k),
    decreases k,
{
    if k > 0 {
        owed_attr_prefix_stable(a0, c1, c2, k - 1);
    }
}

proof fn owed_category_prefix_stable(
    s0: Seq<SourceCategory>,
    c1: Seq<SourceCategory>,
    c2: Seq<SourceCategory>,
    k: int,
)
    requires
        forall|t: int| 0 <= t < k ==> c1[t] == c2[t],
    ensures
        owed_category_ids(s0, c1, k) == owed_category_ids(s0, c2, k),
        owed_attribute_entries_upto(s0, c1, k) == owed_attribute_entries_upto(s0, c2, k),
    decreases k,
{
    if k > 0 {
        owed_category_prefix_stable(s0, c1, c2, k - 1);
    }
}

/// Attributes that all carry ids owe nothing to the ledger.
proof fn owed_attr_all_present(a0: Seq<SourceAttribute>, a1: Seq<SourceAttribute>, k: int)
    requires
        forall|t: int| 0 <= t < k ==> (#[trigger] a0[t].id) is Some,
    ensures
        owed_attr_entries(a0, a1, k) == Seq::<(Seq<char>, Seq<char>)>::empty(),
    decreases k,
{
    if k > 0 {
        owed_attr_all_present(a0, a1, k - 1);
        assert(owed_attr_entries(a0, a1, k) =~= Seq::<(Seq<char>, Seq<char>)>::empty());
    }
}

/// A linking sequence with a failing prefix fails as a whole.
proof fn linking_prefix_fails(
    links0: Map<Seq<char>, Seq<char>>,
    sources: Seq<SourceCategory>,
    k: int,
    n: int,
)
    requires
        0 <= k <= n,
        !linking_ok_upto(links0, sources, k),
    ensures
        !linking_ok_upto(links0, sources, n),
    decreases n - k,
{
    if k < n {
        linking_prefix_fails(links0, sources, k + 1, n);
    }
}

} // verus!
