use taxonomy_ci::attributes::attribute_id_generator;
use taxonomy_ci::attributes::id_tracker::{Entry, IdTracker};
use taxonomy_ci::attributes::source_attribute::SourceAttribute;
use taxonomy_ci::error::ErrorKind;

fn attribute(id: Option<&str>, name: &str, data_type: &str) -> SourceAttribute {
    SourceAttribute {
        id: id.map(|v| v.to_string()),
        name: name.to_string(),
        data_type: data_type.to_string(),
        unit: None,
        optional: None,
    }
}

#[test]
fn error_no_id_attribute() {
    let mut id_tracker = IdTracker::new(Vec::new());
    let no_id_attribute = attribute(None, "", "");

    assert_eq!(
        ErrorKind::MissingId,
        id_tracker.track_attribute(&no_id_attribute).unwrap_err().kind()
    );
}

#[test]
fn id_tracker_test_error_id_attribute_not_found() {
    let mut id_tracker = IdTracker::new(Vec::new());
    let attribute = attribute(Some("ABCD"), "", "");

    assert_eq!(
        ErrorKind::IdNotFound,
        id_tracker.track_attribute(&attribute).unwrap_err().kind()
    );
}

#[test]
fn id_tracker_test_error_duplicated_id_attribute() {
    let entries = vec![Entry { id: "ABCD".to_string(), attribute_type: "".to_string() }];

    let mut id_tracker = IdTracker::new(entries);
    let first_attribute = attribute(Some("ABCD"), "First", "");
    let second_attribute = attribute(Some("ABCD"), "Second", "");

    id_tracker.track_attribute(&first_attribute).unwrap();
    assert_eq!(
        ErrorKind::DuplicatedId,
        id_tracker.track_attribute(&second_attribute).unwrap_err().kind()
    );
}

#[test]
fn id_tracker_test_error_missing_ids() {
    let entries = vec![Entry { id: "ABCD".to_string(), attribute_type: "".to_string() }];

    let id_tracker = IdTracker::new(entries);

    assert_eq!(ErrorKind::IdNotTracked, id_tracker.close().unwrap_err().kind());
}

#[test]
fn id_tracker_test_id_comparison_is_correct() {
    let entries = vec![
        Entry { id: "1234".to_string(), attribute_type: "".to_string() },
        Entry { id: "5678".to_string(), attribute_type: "".to_string() },
    ];

    let mut id_tracker = IdTracker::new(entries);
    let first_attribute = attribute(Some("1234"), "First", "");
    let second_attribute = attribute(Some("ABCD"), "Second", "");

    id_tracker.track_attribute(&first_attribute).unwrap();
    // The second attribute must not be found because the id is not in the map.
    assert_eq!(
        ErrorKind::IdNotFound,
        id_tracker.track_attribute(&second_attribute).unwrap_err().kind()
    );
}

#[test]
fn id_tracker_test_track_and_close_successfully() {
    let entries = vec![Entry { id: "ABCD".to_string(), attribute_type: "".to_string() }];

    let mut id_tracker = IdTracker::new(entries);
    let first_attribute = attribute(Some("ABCD"), "First", "");

    id_tracker.track_attribute(&first_attribute).unwrap();
    id_tracker.close().unwrap();
}

#[test]
fn error_on_changing_type() {
    let entries = vec![Entry { id: "ABCD".to_string(), attribute_type: "double".to_string() }];

    let mut id_tracker = IdTracker::new(entries);
    let first_attribute = attribute(Some("ABCD"), "First", "float");

    assert_eq!(
        ErrorKind::TypeChanged,
        id_tracker.track_attribute(&first_attribute).unwrap_err().kind()
    );
}

#[test]
fn id_generator_test_error_on_setting_random_id_to_attribute_with_id() {
    let mut first_attribute = attribute(Some("ABCD"), "First", "float");

    assert_eq!(
        ErrorKind::CannotOverrideId,
        attribute_id_generator::set_random_id(&mut first_attribute)
            .unwrap_err()
            .kind()
    );
}

#[test]
fn id_generator_test_unique_random_id_constraint() {
    let mut entries: Vec<Entry> = Vec::new();
    let mut attributes: Vec<SourceAttribute> = Vec::new();

    for i in 0..1000 {
        let mut new_attribute = attribute(None, format!("{}", i).as_str(), "float");

        attribute_id_generator::set_random_id(&mut new_attribute).unwrap();
        let attribute_id = new_attribute.id.clone().unwrap();

        entries.push(Entry { id: attribute_id, attribute_type: "float".to_string() });
        attributes.push(new_attribute);
    }

    let mut id_tracker = IdTracker::new(entries);

    for seen in attributes {
        id_tracker.track_attribute(&seen).unwrap();
    }

    id_tracker.close().unwrap();
}

#[test]
fn completeness_report_names_the_missing_id() {
    let entries = vec![
        Entry { id: "A".to_string(), attribute_type: "".to_string() },
        Entry { id: "B".to_string(), attribute_type: "".to_string() },
        Entry { id: "C".to_string(), attribute_type: "".to_string() },
    ];

    let mut id_tracker = IdTracker::new(entries);
    id_tracker.track_attribute(&attribute(Some("A"), "First", "")).unwrap();
    id_tracker.track_attribute(&attribute(Some("B"), "Second", "")).unwrap();

    let error = id_tracker.close().unwrap_err();
    assert_eq!(ErrorKind::IdNotTracked, error.kind());
    assert!(error.message.contains("C"));
    assert!(!error.message.contains("A,"));
}
