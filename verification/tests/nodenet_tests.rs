use neuralnet::brain::nodenet::{ContentProvenance, NodeMetadata, NodePayload};

#[test]
fn metadata_review_check_requires_source_owner_and_usage_terms() {
    let metadata = NodeMetadata::with_lang("en")
        .with_source_owner(Some("doc-123"), Some("https://example.test/doc"), "example-owner")
        .with_usage_terms(Some("CC-BY-4.0"), None, None);

    assert!(metadata.has_minimum_provenance_for_review());
}

#[test]
fn metadata_review_check_fails_without_owner() {
    let mut metadata = NodeMetadata::with_lang("en");
    metadata.set_provenance(ContentProvenance {
        source_id: Some("doc-123".to_string()),
        source_uri: None,
        owner_controller: None,
        license: Some("CC-BY-4.0".to_string()),
        usage_rights: None,
        lawful_basis: None,
        purpose: None,
        retention_policy: None,
        collected_at_utc: None,
        collector: None,
        jurisdiction: None,
        content_hash: None,
        transformation_lineage: Vec::new(),
    });

    assert!(!metadata.has_minimum_provenance_for_review());
}

#[test]
fn metadata_attributes_set_get_and_language() {
    let mut metadata = NodeMetadata::with_lang("en");
    assert_eq!(metadata.get("lang"), Some("en"));
    metadata.set("topic", "cats");
    metadata.set("topic", "dogs");
    assert_eq!(metadata.get("topic"), Some("dogs"));
    assert_eq!(metadata.get("missing"), None);
    assert!(NodeMetadata::new().provenance().is_none());
}

#[test]
fn metadata_without_provenance_is_not_reviewable() {
    let metadata = NodeMetadata::new();
    assert!(!metadata.has_minimum_provenance_for_review());
    let default_provenance = ContentProvenance::default();
    assert!(!default_provenance.has_minimum_attribution());
}

#[test]
fn transformation_steps_are_appended_in_order() {
    let mut metadata = NodeMetadata::with_lang("en");
    metadata.push_transformation_step("resize");
    metadata.push_transformation_step("normalize");
    let provenance = metadata.provenance().expect("steps create provenance");
    assert_eq!(provenance.transformation_lineage, vec!["resize".to_string(), "normalize".to_string()]);
}

#[test]
fn node_payload_text_and_display() {
    let text = NodePayload::text("hello");
    assert_eq!(text.as_text(), Some("hello"));
    assert_eq!(text.as_str(), "hello");
    assert!(text.eq_text("hello"));
    assert!(!text.eq_text("other"));
    assert_eq!(text.display_string(), "hello");

    let image = NodePayload::ImageBytes(vec![1, 2, 3]);
    assert_eq!(image.as_text(), None);
    assert_eq!(image.as_str(), "");
    assert_eq!(image.display_string(), "<image_bytes:3>");

    let tokens = NodePayload::FeatureTokens {
        modality: "vision".to_string(),
        tokens: vec!["a".to_string(), "b".to_string()],
    };
    assert_eq!(tokens.display_string(), "<feature_tokens:vision:2>");
}

#[test]
fn language_metadata_holds_only_the_language() {
    let metadata = NodeMetadata::with_lang(" en ");
    assert_eq!(metadata.attributes.len(), 1);
    assert_eq!(metadata.get("LANG"), Some(" en "));
    assert!(metadata.provenance().is_none());
    assert!(!metadata.has_minimum_provenance_for_review());
}
