use content_lake::id::DocumentIdKind;
use content_lake::validate::{validate_document_fields, ValidationError};
use content_lake::config::AppConfig;
use content_lake::mutation::{MutationResponse, MutationResult};

#[test]
fn parse_published_id() {
    let kind = DocumentIdKind::parse("abc123");
    assert_eq!(kind, DocumentIdKind::Published("abc123".to_string()));
    assert_eq!(kind.base_id(), "abc123");
    assert_eq!(kind.full_id(), "abc123");
    assert!(kind.is_published());
}

#[test]
fn parse_draft_id() {
    let kind = DocumentIdKind::parse("drafts.abc123");
    assert_eq!(kind, DocumentIdKind::Draft("abc123".to_string()));
    assert_eq!(kind.base_id(), "abc123");
    assert_eq!(kind.full_id(), "drafts.abc123");
    assert!(kind.is_draft());
}

#[test]
fn parse_version_id() {
    let kind = DocumentIdKind::parse("versions.release1.abc123");
    assert_eq!(
        kind,
        DocumentIdKind::Version {
            release_id: "release1".to_string(),
            base_id: "abc123".to_string(),
        }
    );
    assert_eq!(kind.base_id(), "abc123");
    assert_eq!(kind.full_id(), "versions.release1.abc123");
    assert!(kind.is_version());
}

#[test]
fn parse_malformed_version_id() {
    // A `versions.` id with no further dot falls back to a published id
    // carrying the whole text.
    let kind = DocumentIdKind::parse("versions.only");
    assert_eq!(kind, DocumentIdKind::Published("versions.only".to_string()));
    assert_eq!(kind.full_id(), "versions.only");
}

#[test]
fn validate_accepts_full_fields() {
    assert!(validate_document_fields(Some("doc-1"), Some("post")).is_ok());
}

#[test]
fn validate_rejects_each_field() {
    assert_eq!(
        validate_document_fields(None, Some("post")),
        Err(ValidationError::MissingId)
    );
    assert_eq!(
        validate_document_fields(Some(""), Some("post")),
        Err(ValidationError::EmptyId)
    );
    assert_eq!(
        validate_document_fields(Some("doc-1"), None),
        Err(ValidationError::MissingType)
    );
    assert_eq!(
        validate_document_fields(Some("doc-1"), Some("")),
        Err(ValidationError::EmptyType)
    );
}

#[test]
fn config_addr_joins_host_and_port() {
    let config = AppConfig {
        host: "0.0.0.0".to_string(),
        port: 3030,
        database_url: "postgres://localhost/content".to_string(),
        db_max_connections: 20,
        db_min_connections: 5,
        jwt_secret: "dev-secret".to_string(),
        event_bus_capacity: 1024,
        log_level: "info".to_string(),
    };
    assert_eq!(config.addr(), "0.0.0.0:3030");
}

#[test]
fn mutation_response_holds_results() {
    let response = MutationResponse {
        transaction_id: "txn-1".to_string(),
        results: vec![MutationResult {
            id: "doc-1".to_string(),
            operation: "create".to_string(),
        }],
    };
    assert_eq!(response.results.len(), 1);
    assert_eq!(response.results[0].operation, "create");
}
