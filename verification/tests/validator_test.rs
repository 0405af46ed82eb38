use taxonomy_ci::validator::{check_json_documents, is_json_valid, Validator};
use taxonomy_ci::categories::category_id_tracker::CategoryEntry;
use taxonomy_ci::categories::source_category::SourceCategory;
use taxonomy_ci::error::ErrorKind;

#[test]
fn error_invalid_json() {
    assert_eq!(false, is_json_valid("{abcd"));
}

#[test]
fn empty_is_not_valid() {
    assert_eq!(false, is_json_valid(""));
}

#[test]
fn success_valid_json() {
    assert_eq!(true, is_json_valid("{\"abcd\": 2}"));
}

#[test]
fn json_document_check_reports_a_malformed_fragment() {
    let documents = vec!["{\"a\": 1}".to_string(), "{nope".to_string()];
    assert_eq!(
        ErrorKind::FailedToReadCategory,
        check_json_documents(&documents).unwrap_err().kind()
    );
    assert!(check_json_documents(&vec!["[1, 2]".to_string()]).is_ok());
}

fn record(
    id: Option<&str>,
    parent: Option<&str>,
    name: &str,
    selectable: bool,
) -> SourceCategory {
    SourceCategory {
        id: id.map(|v| v.to_string()),
        parent: parent.map(|v| v.to_string()),
        parent_name: None,
        name: name.to_string(),
        selectable_as_last: Some(selectable),
        attributes: Vec::new(),
    }
}

#[test]
fn validator_accepts_a_stable_tree_without_writes() {
    let sources = vec![
        record(Some("id"), None, "root", false),
        record(Some("id2"), Some("id"), "child", true),
    ];
    let entries = vec![
        CategoryEntry { id: "id".to_string() },
        CategoryEntry { id: "id2".to_string() },
    ];

    let mut validator = Validator::new();
    let writes = validator.validate(sources, entries).unwrap();
    assert_eq!(0, writes.len());
}

#[test]
fn validator_rejects_a_tree_without_selectable_leaf() {
    let sources = vec![
        record(Some("id"), None, "root", false),
        record(Some("id2"), Some("id"), "child", false),
    ];
    let entries = vec![
        CategoryEntry { id: "id".to_string() },
        CategoryEntry { id: "id2".to_string() },
    ];

    let mut validator = Validator::new();
    let error = validator.validate(sources, entries).unwrap_err();
    assert_eq!(ErrorKind::LastCategoryNotSelectable, error.kind());
}

#[test]
fn validator_assigns_ids_and_plans_their_writes() {
    let sources = vec![
        record(Some("id"), None, "root", true),
        record(None, None, "fresh", true),
    ];
    let entries = vec![CategoryEntry { id: "id".to_string() }];

    let mut validator = Validator::new();
    let writes = validator.validate(sources, entries).unwrap();
    assert_eq!(1, writes.len());
    assert_eq!("fresh", writes[0].name.as_str());
    assert_eq!(36, writes[0].category.id.clone().unwrap().len());
}
