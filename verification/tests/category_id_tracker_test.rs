use taxonomy_ci::categories::category_id_generator::set_random_id;
use taxonomy_ci::categories::category_id_tracker::{CategoryEntry, CategoryIdTracker};
use taxonomy_ci::categories::source_category::SourceCategory;
use taxonomy_ci::error::ErrorKind;

fn source_category(id: Option<&str>, name: &str) -> SourceCategory {
    SourceCategory {
        id: id.map(|v| v.to_string()),
        parent: None,
        parent_name: None,
        name: name.to_string(),
        selectable_as_last: Some(false),
        attributes: Vec::new(),
    }
}

#[test]
fn category_id_tracker_test_error_duplicated_id_category() {
    let entries = vec![CategoryEntry { id: "id".to_string() }];

    let mut tracker = CategoryIdTracker::new(entries);

    tracker.track_category("id").unwrap();
    assert_eq!(
        ErrorKind::DuplicatedId,
        tracker.track_category("id").unwrap_err().kind()
    );
}

#[test]
fn category_id_tracker_test_error_id_category_not_found() {
    let mut tracker = CategoryIdTracker::new(Vec::new());

    assert_eq!(
        ErrorKind::IdNotFound,
        tracker.track_category("id").unwrap_err().kind()
    );
}

#[test]
fn category_id_tracker_test_track_categories_successfully() {
    let entries = vec![
        CategoryEntry { id: "id".to_string() },
        CategoryEntry { id: "id2".to_string() },
    ];

    let mut tracker = CategoryIdTracker::new(entries);

    tracker.track_category("id").unwrap();
    tracker.track_category("id2").unwrap();
    assert_eq!(
        ErrorKind::IdNotFound,
        tracker.track_category("id3").unwrap_err().kind()
    );
}

#[test]
fn category_id_tracker_test_error_untracked_ids_on_close() {
    let entries = vec![
        CategoryEntry { id: "id".to_string() },
        CategoryEntry { id: "id2".to_string() },
        CategoryEntry { id: "id3".to_string() },
    ];

    let tracker = CategoryIdTracker::new(entries);

    assert_eq!(ErrorKind::IdNotTracked, tracker.close().unwrap_err().kind());
}

#[test]
fn category_id_tracker_test_track_and_close_successfully() {
    let entries = vec![
        CategoryEntry { id: "id".to_string() },
        CategoryEntry { id: "id2".to_string() },
        CategoryEntry { id: "id3".to_string() },
    ];

    let mut tracker = CategoryIdTracker::new(entries);

    tracker.track_category("id").unwrap();
    tracker.track_category("id2").unwrap();
    tracker.track_category("id3").unwrap();
    tracker.close().unwrap();
}

#[test]
fn category_id_generator_test_error_on_setting_random_id_to_category_with_id() {
    let mut first_category = source_category(Some("ABCD"), "First");

    assert_eq!(
        ErrorKind::CannotOverrideId,
        set_random_id(&mut first_category).unwrap_err().kind()
    );
}

#[test]
fn category_id_generator_test_unique_random_id_constraint() {
    let mut entries: Vec<CategoryEntry> = Vec::new();
    let mut category_ids: Vec<String> = Vec::new();

    for i in 0..1000 {
        let mut category = source_category(None, format!("{}", i).as_str());

        set_random_id(&mut category).unwrap();
        let id = category.id.clone().unwrap();

        entries.push(CategoryEntry { id: id.clone() });
        category_ids.push(id);
    }

    let mut id_tracker = CategoryIdTracker::new(entries);

    for id in category_ids {
        id_tracker.track_category(id.as_str()).unwrap();
    }

    id_tracker.close().unwrap();
}

#[test]
fn tracker_completeness_names_every_missing_id() {
    let entries = vec![
        CategoryEntry { id: "A".to_string() },
        CategoryEntry { id: "B".to_string() },
        CategoryEntry { id: "C".to_string() },
    ];

    let mut tracker = CategoryIdTracker::new(entries);
    tracker.track_category("A").unwrap();
    tracker.track_category("B").unwrap();

    let error = tracker.close().unwrap_err();
    assert_eq!(ErrorKind::IdNotTracked, error.kind());
    assert!(error.message.contains("C"));
}
