use taxonomy_ci::attributes::attribute::Attribute;
use taxonomy_ci::attributes::validations::reserved_attribute_names_validation::ReservedAttributeNamesValidation;
use taxonomy_ci::error::ErrorKind;

fn attribute(id: &str, name: &str, data_type: &str) -> Attribute {
    Attribute {
        id: id.to_string(),
        name: name.to_string(),
        data_type: data_type.to_string(),
        unit: None,
        optional: false,
    }
}

#[test]
fn detects_reserved_keywords_within_attributes_names() {
    let mut attributes: Vec<Attribute> = Vec::new();
    attributes.push(attribute("1", "1", "string"));
    attributes.push(attribute("2", "type", "string"));

    let reserved_keywords: Vec<String> = vec!["type".to_string(), "version".to_string()];
    let mut validation = ReservedAttributeNamesValidation::new(reserved_keywords);

    assert!(validation.partially_validate(attributes.as_slice()).is_err());
}

#[test]
fn no_false_positives() {
    let mut attributes: Vec<Attribute> = Vec::new();
    attributes.push(attribute("1", "1", "string"));
    attributes.push(attribute("2", "tipe", "string"));

    let reserved_keywords: Vec<String> = vec!["type".to_string(), "version".to_string()];
    let mut validation = ReservedAttributeNamesValidation::new(reserved_keywords);

    assert!(validation.partially_validate(attributes.as_slice()).is_ok());
}

#[test]
fn reserved_keyword_match_is_case_insensitive() {
    let reserved_keywords: Vec<String> = vec!["type".to_string(), "version".to_string()];
    let mut validation = ReservedAttributeNamesValidation::new(reserved_keywords);

    let uppercase = vec![attribute("1", "Type", "string")];
    let error = validation.partially_validate(uppercase.as_slice()).unwrap_err();
    assert_eq!(ErrorKind::ReservedKeywordUsedAsName, error.kind());

    let harmless = vec![attribute("2", "Tipe", "string")];
    assert!(validation.partially_validate(harmless.as_slice()).is_ok());
    assert!(validation.complete().is_ok());
}
