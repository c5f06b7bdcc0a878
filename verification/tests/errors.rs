use cqrs_es::error::{AggregateError, PersistenceError, UserErrorPayload};

#[test]
fn user_error_carries_message() {
    let error = AggregateError::new_user_error("user already exists");
    match &error {
        AggregateError::UserError(payload) => {
            assert_eq!(payload.code, None);
            assert_eq!(payload.message, Some("user already exists".to_string()));
            assert_eq!(payload.params, None);
        }
        other => panic!("expected a user error, got {:?}", other),
    }
    assert_eq!(error.description(), "user already exists");
}

#[test]
fn user_error_carries_message_and_code() {
    let error = AggregateError::new_user_error_with_code("user already exists", "USER_EXISTS");
    match &error {
        AggregateError::UserError(payload) => {
            assert_eq!(payload.code, Some("USER_EXISTS".to_string()));
            assert_eq!(payload.message, Some("user already exists".to_string()));
            assert_eq!(payload.params, None);
        }
        other => panic!("expected a user error, got {:?}", other),
    }
}

#[test]
fn technical_error_carries_message() {
    let error = AggregateError::new_technical_error("connection lost");
    assert_eq!(
        error,
        AggregateError::TechnicalError("connection lost".to_string())
    );
    assert_eq!(error.description(), "connection lost");
}

#[test]
fn payload_without_message_describes_itself_as_unknown() {
    let payload = UserErrorPayload {
        code: None,
        message: None,
        params: Some(vec![("field".to_string(), "value".to_string())]),
    };
    assert_eq!(payload.description(), "unknown error");
}

#[test]
fn conflict_describes_itself() {
    assert_eq!(
        AggregateError::AggregateConflict.description(),
        "aggregate conflict"
    );
}

#[test]
fn persistence_errors_map_into_aggregate_errors() {
    assert_eq!(
        PersistenceError::OptimisticLock.into_aggregate_error(),
        AggregateError::AggregateConflict
    );
    assert_eq!(
        PersistenceError::Technical("disk full".to_string()).into_aggregate_error(),
        AggregateError::TechnicalError("disk full".to_string())
    );
}

#[test]
fn json_syntax_error_becomes_fixed_technical_error() {
    let err = serde_json::from_str::<serde_json::Value>("{]").unwrap_err();
    assert_eq!(err.classify(), serde_json::error::Category::Syntax);
    let error: AggregateError = err.into();
    assert_eq!(error, AggregateError::TechnicalError("invalid json".to_string()));
}

#[test]
fn json_eof_error_keeps_its_diagnostic() {
    let err = serde_json::from_str::<serde_json::Value>("{").unwrap_err();
    assert_eq!(err.classify(), serde_json::error::Category::Eof);
    let expected = err.to_string();
    let error: AggregateError = err.into();
    assert_eq!(error, AggregateError::TechnicalError(expected));
}
