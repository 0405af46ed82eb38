use taxonomy_ci::attributes::attribute_id_generator::set_random_id;
use taxonomy_ci::attributes::attribute_id_tracker::AttributeIdTracker;
use taxonomy_ci::attributes::attribute_tracker_io::AttributeEntry;
use taxonomy_ci::attributes::source_attribute::SourceAttribute;
use taxonomy_ci::error::ErrorKind;

fn source_attribute(id: Option<&str>, name: &str, data_type: &str) -> SourceAttribute {
    SourceAttribute {
        id: id.map(|v| v.to_string()),
        name: name.to_string(),
        data_type: data_type.to_string(),
        unit: None,
        optional: Some(false),
    }
}

#[test]
fn category_id_tracker_test_error_id_attribute_not_found() {
    let no_entries: Vec<AttributeEntry> = Vec::new();
    let mut id_tracker = AttributeIdTracker::new(&no_entries);
    let attribute = source_attribute(Some("ABCD"), "", "");

    assert_eq!(
        ErrorKind::IdNotFound,
        id_tracker
            .track_attribute(attribute.id.unwrap().as_str())
            .unwrap_err()
            .kind()
    );
}

#[test]
fn category_id_tracker_test_error_duplicated_id_attribute() {
    let entries = vec![AttributeEntry { id: "ABCD".to_string(), data_type: "".to_string() }];

    let mut id_tracker = AttributeIdTracker::new(&entries);
    let first_attribute = source_attribute(Some("ABCD"), "First", "");
    let second_attribute = source_attribute(Some("ABCD"), "Second", "");

    id_tracker
        .track_attribute(first_attribute.id.unwrap().as_str())
        .unwrap();
    assert_eq!(
        ErrorKind::DuplicatedId,
        id_tracker
            .track_attribute(second_attribute.id.unwrap().as_str())
            .unwrap_err()
            .kind()
    );
}

#[test]
fn category_id_tracker_test_error_missing_ids() {
    let entries = vec![AttributeEntry { id: "ABCD".to_string(), data_type: "".to_string() }];

    let id_tracker = AttributeIdTracker::new(&entries);

    assert_eq!(ErrorKind::IdNotTracked, id_tracker.close().unwrap_err().kind());
}

#[test]
fn category_id_tracker_test_id_comparison_is_correct() {
    let entries = vec![
        AttributeEntry { id: "1234".to_string(), data_type: "".to_string() },
        AttributeEntry { id: "5678".to_string(), data_type: "".to_string() },
    ];

    let mut id_tracker = AttributeIdTracker::new(&entries);
    let first_attribute = source_attribute(Some("1234"), "First", "");
    let second_attribute = source_attribute(Some("ABCD"), "Second", "");

    id_tracker
        .track_attribute(first_attribute.id.unwrap().as_str())
        .unwrap();
    // The second attribute must not be found because the id is not in the map.
    assert_eq!(
        ErrorKind::IdNotFound,
        id_tracker
            .track_attribute(second_attribute.id.unwrap().as_str())
            .unwrap_err()
            .kind()
    );
}

#[test]
fn attribute_id_tracker_test_track_and_close_successfully() {
    let entries = vec![AttributeEntry { id: "ABCD".to_string(), data_type: "".to_string() }];

    let mut id_tracker = AttributeIdTracker::new(&entries);
    let first_attribute = source_attribute(Some("ABCD"), "First", "");

    id_tracker
        .track_attribute(first_attribute.id.unwrap().as_str())
        .unwrap();
    id_tracker.close().unwrap();
}

#[test]
fn category_id_generator_test_error_on_setting_random_id_to_attribute_with_id() {
    let mut first_attribute = source_attribute(Some("ABCD"), "First", "float");

    assert_eq!(
        ErrorKind::CannotOverrideId,
        set_random_id(&mut first_attribute).unwrap_err().kind()
    );
}

#[test]
fn attribute_id_generator_test_unique_random_id_constraint() {
    let mut entries: Vec<AttributeEntry> = Vec::new();
    let mut attributes: Vec<SourceAttribute> = Vec::new();

    for i in 0..1000 {
        let mut attribute = source_attribute(None, format!("{}", i).as_str(), "float");

        set_random_id(&mut attribute).unwrap();
        let attribute_id = attribute.id.clone().unwrap();

        entries.push(AttributeEntry { id: attribute_id, data_type: "float".to_string() });
        attributes.push(attribute);
    }

    let mut id_tracker = AttributeIdTracker::new(&entries);

    for attribute in attributes {
        id_tracker
            .track_attribute(attribute.id.unwrap().as_str())
            .unwrap();
    }

    id_tracker.close().unwrap();
}

#[test]
fn fresh_attribute_ids_have_uuid_length() {
    let mut attribute = source_attribute(None, "First", "float");
    set_random_id(&mut attribute).unwrap();
    assert_eq!(36, attribute.id.unwrap().len());
}
