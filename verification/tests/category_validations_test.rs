use taxonomy_ci::categories::category::Category;
use taxonomy_ci::categories::category_id_tracker::CategoryEntry;
use taxonomy_ci::categories::validations::id_tracking_validation::IdTrackingValidation;
use taxonomy_ci::categories::validations::selectable_as_last_validation::SelectableAsLastValidation;
use taxonomy_ci::categories::in_memory_category::InMemoryCategory;
use taxonomy_ci::error::ErrorKind;

fn node(id: &str, name: &str, selectable_as_last: bool) -> Category {
    Category::new(id.to_string(), name.to_string(), selectable_as_last, Vec::new())
}

fn attach(nodes: &mut Vec<Category>, id: &str, parent: usize, selectable_as_last: bool) -> usize {
    Category::new_into_parent(
        nodes,
        id.to_string(),
        parent,
        id.to_string(),
        selectable_as_last,
        Vec::new(),
    )
    .unwrap()
}

#[test]
fn error_if_missing_categories() {
    let entries = vec![
        CategoryEntry { id: "9961ed43-919d-4d4a-86d9-92688dc2e12d".to_string() },
        CategoryEntry { id: "id2".to_string() },
    ];
    let mut nodes: Vec<Category> = Vec::new();
    nodes.push(node("9961ed43-919d-4d4a-86d9-92688dc2e12d", "food", false));

    let id_tracking_validation = IdTrackingValidation::new();

    assert_eq!(
        ErrorKind::IdNotTracked,
        id_tracking_validation.validate(entries, &nodes).unwrap_err().kind()
    );
}

#[test]
fn error_if_not_selectable_as_last_and_has_no_children() {
    let mut nodes: Vec<Category> = Vec::new();
    nodes.push(node("ABCD", "ABCD", false));
    let roots = vec![0];

    let selectable_as_last_validation = SelectableAsLastValidation::new();

    selectable_as_last_validation.validate(&nodes, &roots).unwrap_err();
}

#[test]
fn error_if_children_not_selectable_as_last() {
    let mut nodes: Vec<Category> = Vec::new();
    nodes.push(node("ABCD", "ABCD", false));
    attach(&mut nodes, "C1", 0, false);
    attach(&mut nodes, "C2", 0, false);
    let roots = vec![0];

    let selectable_as_last_validation = SelectableAsLastValidation::new();

    selectable_as_last_validation.validate(&nodes, &roots).unwrap_err();
}

#[test]
fn detects_correct_category_correctly() {
    let mut nodes: Vec<Category> = Vec::new();
    nodes.push(node("ABCD", "ABCD", true));
    let roots = vec![0];

    let selectable_as_last_validation = SelectableAsLastValidation::new();

    selectable_as_last_validation.validate(&nodes, &roots).unwrap();
}

#[test]
fn detects_correct_expanded_category_tree_correctly() {
    let mut nodes: Vec<Category> = Vec::new();
    nodes.push(node("root", "root", false));
    let first_inner = attach(&mut nodes, "inner 1", 0, false);
    let second_inner = attach(&mut nodes, "inner 2", first_inner, false);
    let third_inner = attach(&mut nodes, "inner 3", second_inner, true);
    attach(&mut nodes, "inner 4", third_inner, false);
    attach(&mut nodes, "inner 3 alt", second_inner, true);
    attach(&mut nodes, "inner 2 alt", 0, true);
    let roots = vec![0];

    let selectable_as_last_validation = SelectableAsLastValidation::new();

    selectable_as_last_validation.validate(&nodes, &roots).unwrap();
}

#[test]
fn error_if_there_is_a_non_selectable_last_category() {
    let mut nodes: Vec<Category> = Vec::new();
    nodes.push(node("root", "root", false));
    let first_inner = attach(&mut nodes, "inner 1", 0, false);
    let second_inner = attach(&mut nodes, "inner 2", first_inner, false);
    let third_inner = attach(&mut nodes, "inner 3", second_inner, true);
    attach(&mut nodes, "inner 4", third_inner, false);
    attach(&mut nodes, "inner 3 alt", second_inner, true);
    attach(&mut nodes, "inner 2 alt", 0, false);
    let roots = vec![0];

    let selectable_as_last_validation = SelectableAsLastValidation::new();

    assert_eq!(
        ErrorKind::LastCategoryNotSelectable,
        selectable_as_last_validation.validate(&nodes, &roots).unwrap_err().kind()
    );
}

#[test]
fn deep_childless_descendant_fails_even_with_valid_siblings() {
    let mut nodes: Vec<Category> = Vec::new();
    nodes.push(node("root", "root", false));
    let left = attach(&mut nodes, "left", 0, true);
    attach(&mut nodes, "left leaf", left, true);
    // The right branch ends in a childless node that is not selectable.
    let right = attach(&mut nodes, "right", 0, false);
    attach(&mut nodes, "right leaf", right, false);
    let roots = vec![0];

    let selectable_as_last_validation = SelectableAsLastValidation::new();

    assert_eq!(
        ErrorKind::LastCategoryNotSelectable,
        selectable_as_last_validation.validate(&nodes, &roots).unwrap_err().kind()
    );
}

#[test]
fn attaching_to_an_unknown_parent_is_rejected() {
    let mut nodes: Vec<Category> = Vec::new();
    nodes.push(node("root", "root", true));

    let error = Category::new_into_parent(
        &mut nodes,
        "stray".to_string(),
        7,
        "stray".to_string(),
        true,
        Vec::new(),
    )
    .unwrap_err();
    assert_eq!(ErrorKind::ParentNotAvailable, error.kind());
}

#[test]
fn tracks_whole_forest_and_closes() {
    let entries = vec![
        CategoryEntry { id: "id".to_string() },
        CategoryEntry { id: "id2".to_string() },
        CategoryEntry { id: "id3".to_string() },
    ];
    let mut nodes: Vec<Category> = Vec::new();
    nodes.push(node("id", "root", false));
    let child = attach(&mut nodes, "id2", 0, false);
    attach(&mut nodes, "id3", child, true);

    let id_tracking_validation = IdTrackingValidation::new();
    id_tracking_validation.validate(entries, &nodes).unwrap();
}

#[test]
fn in_memory_categories_form_the_same_arena_shape() {
    let mut nodes: Vec<InMemoryCategory> = Vec::new();
    nodes.push(InMemoryCategory::new("id".to_string(), "root".to_string(), false));
    let child = InMemoryCategory::new_into_parent(
        &mut nodes,
        "id2".to_string(),
        0,
        "leaf".to_string(),
        true,
    )
    .unwrap();
    assert_eq!(1, child);
    assert_eq!(vec![child], nodes[0].children);
    assert_eq!(Some(0), nodes[child].parent);

    let error = InMemoryCategory::new_into_parent(
        &mut nodes,
        "id3".to_string(),
        9,
        "stray".to_string(),
        true,
    )
    .unwrap_err();
    assert_eq!(ErrorKind::ParentNotAvailable, error.kind());
}

#[test]
fn selectable_failure_names_the_childless_category() {
    let mut nodes: Vec<Category> = Vec::new();
    nodes.push(node("root-id", "root", false));
    attach(&mut nodes, "bare-leaf", 0, false);
    let roots = vec![0];

    let selectable_as_last_validation = SelectableAsLastValidation::new();
    let error = selectable_as_last_validation.validate(&nodes, &roots).unwrap_err();
    assert_eq!(ErrorKind::LastCategoryNotSelectable, error.kind());
    assert!(error.message.contains("bare-leaf"));
}
