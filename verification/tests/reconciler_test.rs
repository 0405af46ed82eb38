use taxonomy_ci::attributes::attribute::Attribute;
use taxonomy_ci::attributes::attribute_tracker_io::AttributeEntry;
use taxonomy_ci::attributes::attribute_validator_builder::build_attribute_validator;
use taxonomy_ci::attributes::source_attribute::SourceAttribute;
use taxonomy_ci::attributes::validations::data_type_constant_validation::DataTypeConstantValidation;
use taxonomy_ci::attributes::validations::data_type_validation::DataTypeValidation;
use taxonomy_ci::categories::category_id_tracker::CategoryEntry;
use taxonomy_ci::categories::source_category::SourceCategory;
use taxonomy_ci::ci::{CiRunReport, CI};
use taxonomy_ci::config::Config;
use taxonomy_ci::error::ErrorKind;

fn config() -> Config {
    Config::new(
        vec!["numeric".to_string(), "string".to_string()],
        vec!["type".to_string(), "version".to_string()],
    )
}

fn fragment(
    id: Option<&str>,
    parent_name: Option<&str>,
    name: &str,
    selectable: bool,
    attributes: Vec<SourceAttribute>,
) -> SourceCategory {
    SourceCategory {
        id: id.map(|v| v.to_string()),
        parent: None,
        parent_name: parent_name.map(|v| v.to_string()),
        name: name.to_string(),
        selectable_as_last: Some(selectable),
        attributes,
    }
}

fn run(
    sources: Vec<SourceCategory>,
    category_entries: Vec<CategoryEntry>,
    attribute_entries: Vec<AttributeEntry>,
) -> CiRunReport {
    let mut ci = CI::try_new(config()).unwrap();
    ci.run_ci_logic(sources, category_entries, attribute_entries)
}

fn stable_three_fragments() -> Vec<SourceCategory> {
    vec![
        fragment(Some("id-root"), None, "root", false, Vec::new()),
        fragment(Some("id-child"), Some("root"), "child-of-root", false, Vec::new()),
        fragment(
            Some("id-grandchild"),
            Some("child-of-root"),
            "grandchild-of-child",
            true,
            Vec::new(),
        ),
    ]
}

fn three_entries() -> Vec<CategoryEntry> {
    vec![
        CategoryEntry { id: "id-root".to_string() },
        CategoryEntry { id: "id-child".to_string() },
        CategoryEntry { id: "id-grandchild".to_string() },
    ]
}

#[test]
fn parent_resolution_is_order_independent() {
    let orders: Vec<Vec<usize>> = vec![
        vec![0, 1, 2],
        vec![0, 2, 1],
        vec![1, 0, 2],
        vec![1, 2, 0],
        vec![2, 0, 1],
        vec![2, 1, 0],
    ];
    for order in orders {
        let all = stable_three_fragments();
        let mut shuffled: Vec<SourceCategory> = Vec::new();
        for index in order {
            let picked = &all[index];
            shuffled.push(fragment(
                picked.id.as_deref(),
                picked.parent_name.as_deref(),
                picked.name.as_str(),
                picked.selectable_as_last.unwrap(),
                Vec::new(),
            ));
        }
        let report = run(shuffled, three_entries(), Vec::new());
        report.outcome.unwrap();
        assert_eq!(0, report.writes.len());
    }
}

#[test]
fn second_run_over_unchanged_storage_writes_nothing() {
    // First run: two new fragments without ids, empty ledgers.
    let sources = vec![
        fragment(None, None, "root", false, Vec::new()),
        fragment(
            None,
            Some("root"),
            "leaf",
            true,
            vec![SourceAttribute {
                id: None,
                name: "weight".to_string(),
                data_type: "numeric".to_string(),
                unit: None,
                optional: None,
            }],
        ),
    ];
    let first = run(sources, Vec::new(), Vec::new());
    first.outcome.unwrap();
    assert_eq!(2, first.category_appends.len());
    assert_eq!(1, first.attribute_appends.len());
    assert_eq!(2, first.writes.len());

    // Second run: the written-back fragments against the appended ledgers.
    let mut second_sources: Vec<SourceCategory> = Vec::new();
    for write in &first.writes {
        let record = &write.category;
        second_sources.push(SourceCategory {
            id: record.id.clone(),
            parent: None,
            parent_name: record.parent_name.clone(),
            name: record.name.clone(),
            selectable_as_last: record.selectable_as_last,
            attributes: record.attributes.clone(),
        });
    }
    let second = run(
        second_sources,
        first.category_appends,
        first.attribute_appends,
    );
    second.outcome.unwrap();
    assert_eq!(0, second.category_appends.len());
    assert_eq!(0, second.attribute_appends.len());
    assert_eq!(0, second.writes.len());
}

#[test]
fn two_fragments_with_one_name_and_different_ids_are_rejected() {
    let sources = vec![
        fragment(Some("id-a"), None, "twin", true, Vec::new()),
        fragment(Some("id-b"), None, "twin", true, Vec::new()),
    ];
    let report = run(
        sources,
        vec![
            CategoryEntry { id: "id-a".to_string() },
            CategoryEntry { id: "id-b".to_string() },
        ],
        Vec::new(),
    );
    assert_eq!(ErrorKind::DuplicatedName, report.outcome.unwrap_err().kind());
    assert_eq!(0, report.writes.len());
}

#[test]
fn unknown_parent_name_is_rejected() {
    let sources = vec![fragment(Some("id-a"), Some("nowhere"), "leaf", true, Vec::new())];
    let report = run(sources, vec![CategoryEntry { id: "id-a".to_string() }], Vec::new());
    assert_eq!(ErrorKind::ParentNotFound, report.outcome.unwrap_err().kind());
}

#[test]
fn parent_cycle_is_rejected() {
    let sources = vec![
        fragment(Some("id-a"), Some("b"), "a", true, Vec::new()),
        fragment(Some("id-b"), Some("a"), "b", true, Vec::new()),
    ];
    let report = run(
        sources,
        vec![
            CategoryEntry { id: "id-a".to_string() },
            CategoryEntry { id: "id-b".to_string() },
        ],
        Vec::new(),
    );
    assert_eq!(
        ErrorKind::ParentNotAvailable,
        report.outcome.unwrap_err().kind()
    );
}

#[test]
fn ledger_id_that_vanished_fails_the_run() {
    let sources = vec![fragment(Some("id-a"), None, "root", true, Vec::new())];
    let entries = vec![
        CategoryEntry { id: "id-a".to_string() },
        CategoryEntry { id: "id-gone".to_string() },
    ];
    let report = run(sources, entries, Vec::new());
    assert_eq!(ErrorKind::IdNotTracked, report.outcome.unwrap_err().kind());
}

fn typed_attribute(id: &str, name: &str, data_type: &str) -> SourceAttribute {
    SourceAttribute {
        id: Some(id.to_string()),
        name: name.to_string(),
        data_type: data_type.to_string(),
        unit: None,
        optional: Some(false),
    }
}

#[test]
fn changed_attribute_type_fails_the_pipeline() {
    let sources = vec![fragment(
        Some("id-a"),
        None,
        "root",
        true,
        vec![typed_attribute("attr-1", "weight", "string")],
    )];
    let attribute_entries = vec![AttributeEntry {
        id: "attr-1".to_string(),
        data_type: "numeric".to_string(),
    }];
    let report = run(
        sources,
        vec![CategoryEntry { id: "id-a".to_string() }],
        attribute_entries,
    );
    assert_eq!(
        ErrorKind::FailedDataTypeConstantAttributeValidation,
        report.outcome.unwrap_err().kind()
    );
}

#[test]
fn attribute_type_outside_the_whitelist_fails_the_pipeline() {
    let sources = vec![fragment(
        Some("id-a"),
        None,
        "root",
        true,
        vec![typed_attribute("attr-1", "weight", "float")],
    )];
    let attribute_entries = vec![AttributeEntry {
        id: "attr-1".to_string(),
        data_type: "float".to_string(),
    }];
    let report = run(
        sources,
        vec![CategoryEntry { id: "id-a".to_string() }],
        attribute_entries,
    );
    assert_eq!(
        ErrorKind::FailedDataTypeAttributeValidation,
        report.outcome.unwrap_err().kind()
    );
}

#[test]
fn reserved_attribute_name_fails_the_pipeline() {
    let sources = vec![fragment(
        Some("id-a"),
        None,
        "root",
        true,
        vec![typed_attribute("attr-1", "Type", "numeric")],
    )];
    let attribute_entries = vec![AttributeEntry {
        id: "attr-1".to_string(),
        data_type: "numeric".to_string(),
    }];
    let report = run(
        sources,
        vec![CategoryEntry { id: "id-a".to_string() }],
        attribute_entries,
    );
    assert_eq!(
        ErrorKind::ReservedKeywordUsedAsName,
        report.outcome.unwrap_err().kind()
    );
}

#[test]
fn whitelist_validation_accumulates_before_reporting() {
    let mut validation = DataTypeValidation::new(vec!["numeric".to_string()]);
    let attributes = vec![
        Attribute {
            id: "1".to_string(),
            name: "first".to_string(),
            data_type: "bogus".to_string(),
            unit: None,
            optional: false,
        },
        Attribute {
            id: "2".to_string(),
            name: "second".to_string(),
            data_type: "worse".to_string(),
            unit: None,
            optional: false,
        },
    ];
    // Partial validation never fails; the findings surface at completion.
    validation.partially_validate(attributes.as_slice()).unwrap();
    let error = validation.complete().unwrap_err();
    assert_eq!(ErrorKind::FailedDataTypeAttributeValidation, error.kind());
    assert!(error.message.contains("first"));
    assert!(error.message.contains("second"));
}

#[test]
fn immutability_validation_rejects_a_second_sighting_of_an_id() {
    let entries = vec![AttributeEntry {
        id: "attr-1".to_string(),
        data_type: "numeric".to_string(),
    }];
    let mut validation = DataTypeConstantValidation::new(&entries);
    let attributes = vec![Attribute {
        id: "attr-1".to_string(),
        name: "weight".to_string(),
        data_type: "numeric".to_string(),
        unit: None,
        optional: false,
    }];
    validation.partially_validate(attributes.as_slice()).unwrap();
    let error = validation.partially_validate(attributes.as_slice()).unwrap_err();
    assert_eq!(ErrorKind::DuplicatedId, error.kind());
}

#[test]
fn attribute_conversion_round_trip_keeps_every_field() {
    let source = typed_attribute("attr-1", "weight", "numeric");
    let attribute = source.to_attribute().unwrap();
    assert_eq!("attr-1", attribute.id.as_str());
    assert_eq!("weight", attribute.name.as_str());
    assert_eq!("numeric", attribute.data_type.as_str());
    assert_eq!(false, attribute.optional);

    let back = attribute.to_source_attribute();
    assert_eq!(Some("attr-1".to_string()), back.id);
    assert_eq!(Some(false), back.optional);

    let missing = SourceAttribute {
        id: None,
        name: "weight".to_string(),
        data_type: "numeric".to_string(),
        unit: None,
        optional: None,
    };
    assert_eq!(
        ErrorKind::MissingId,
        missing.to_attribute().unwrap_err().kind()
    );
}

#[test]
fn config_hands_out_its_lists_and_builds_the_validator() {
    let config = config();
    assert_eq!(
        vec!["numeric".to_string(), "string".to_string()],
        config.valid_data_types()
    );
    assert_eq!(
        vec!["type".to_string(), "version".to_string()],
        config.reserved_keywords()
    );

    let validator = build_attribute_validator(&config);
    let good = typed_attribute("1", "weight", "numeric");
    assert!(validator.check_attribute_validity(&good).is_ok());
    let bad = typed_attribute("2", "height", "float");
    assert!(validator.check_attribute_validity(&bad).is_err());
}

#[test]
fn immutability_report_names_the_change() {
    let entries = vec![AttributeEntry {
        id: "attr-1".to_string(),
        data_type: "numeric".to_string(),
    }];
    let mut validation = DataTypeConstantValidation::new(&entries);
    let attributes = vec![Attribute {
        id: "attr-1".to_string(),
        name: "weight".to_string(),
        data_type: "string".to_string(),
        unit: None,
        optional: false,
    }];
    validation.partially_validate(attributes.as_slice()).unwrap();
    let error = validation.complete().unwrap_err();
    assert_eq!(
        ErrorKind::FailedDataTypeConstantAttributeValidation,
        error.kind()
    );
    assert!(error.message.contains("weight"));
    assert!(error.message.contains("numeric"));
    assert!(error.message.contains("string"));
}
