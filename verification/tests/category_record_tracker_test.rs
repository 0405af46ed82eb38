use taxonomy_ci::categories::category_id_generator;
use taxonomy_ci::categories::id_tracker::{Entry, IdTracker};
use taxonomy_ci::categories::source_category::SourceCategory;
use taxonomy_ci::error::ErrorKind;

fn category(id: Option<&str>, parent: Option<&str>, name: &str) -> SourceCategory {
    SourceCategory {
        id: id.map(|v| v.to_string()),
        parent: parent.map(|v| v.to_string()),
        parent_name: None,
        name: name.to_string(),
        selectable_as_last: None,
        attributes: Vec::new(),
    }
}

#[test]
fn error_no_id_category() {
    let mut tracker = IdTracker::new(Vec::new());
    let record = category(None, None, "");

    assert_eq!(
        ErrorKind::MissingId,
        tracker.track_category(&record).unwrap_err().kind()
    );
}

#[test]
fn id_tracker_test_error_duplicated_id_category() {
    let entries = vec![Entry { id: "id".to_string() }];

    let mut tracker = IdTracker::new(entries);
    let record = category(Some("id"), None, "");

    tracker.track_category(&record).unwrap();
    assert_eq!(
        ErrorKind::DuplicatedId,
        tracker.track_category(&record).unwrap_err().kind()
    );
}

#[test]
fn id_tracker_test_error_id_category_not_found() {
    let mut tracker = IdTracker::new(Vec::new());
    let record = category(Some("id"), None, "");

    assert_eq!(
        ErrorKind::IdNotFound,
        tracker.track_category(&record).unwrap_err().kind()
    );
}

#[test]
fn id_tracker_test_track_categories_successfully() {
    let entries = vec![Entry { id: "id".to_string() }, Entry { id: "id2".to_string() }];

    let mut tracker = IdTracker::new(entries);
    let first = category(Some("id"), None, "");
    let second = category(Some("id2"), None, "");
    let third = category(Some("id3"), None, "");

    tracker.track_category(&first).unwrap();
    tracker.track_category(&second).unwrap();
    assert_eq!(
        ErrorKind::IdNotFound,
        tracker.track_category(&third).unwrap_err().kind()
    );
}

#[test]
fn error_category_parent_not_found() {
    let entries = vec![Entry { id: "id".to_string() }, Entry { id: "id2".to_string() }];

    let mut tracker = IdTracker::new(entries);
    let first = category(Some("id"), None, "");
    let second = category(Some("id2"), Some("id3"), "");

    tracker.track_category(&first).unwrap();
    assert_eq!(
        ErrorKind::ParentNotFound,
        tracker.track_category(&second).unwrap_err().kind()
    );
}

#[test]
fn id_tracker_test_error_untracked_ids_on_close() {
    let entries = vec![
        Entry { id: "id".to_string() },
        Entry { id: "id2".to_string() },
        Entry { id: "id3".to_string() },
    ];

    let tracker = IdTracker::new(entries);

    assert_eq!(ErrorKind::IdNotTracked, tracker.close().unwrap_err().kind());
}

#[test]
fn categories_id_tracker_test_track_and_close_successfully() {
    let entries = vec![
        Entry { id: "id".to_string() },
        Entry { id: "id2".to_string() },
        Entry { id: "id3".to_string() },
    ];

    let mut tracker = IdTracker::new(entries);
    let first = category(Some("id"), None, "");
    let second = category(Some("id2"), Some("id"), "");
    let third = category(Some("id3"), Some("id2"), "");

    tracker.track_category(&first).unwrap();
    tracker.track_category(&second).unwrap();
    tracker.track_category(&third).unwrap();
    tracker.close().unwrap();
}

#[test]
fn id_generator_test_error_on_setting_random_id_to_category_with_id() {
    let mut first_category = category(Some("ABCD"), None, "First");

    assert_eq!(
        ErrorKind::CannotOverrideId,
        category_id_generator::set_random_id(&mut first_category)
            .unwrap_err()
            .kind()
    );
}

#[test]
fn categories_id_generator_test_unique_random_id_constraint() {
    let mut entries: Vec<Entry> = Vec::new();
    let mut categories: Vec<SourceCategory> = Vec::new();

    for i in 0..1000 {
        let mut record = category(None, None, format!("{}", i).as_str());

        category_id_generator::set_random_id(&mut record).unwrap();
        let id = record.id.clone().unwrap();

        entries.push(Entry { id });
        categories.push(record);
    }

    let mut id_tracker = IdTracker::new(entries);

    for record in categories {
        id_tracker.track_category(&record).unwrap();
    }

    id_tracker.close().unwrap();
}
