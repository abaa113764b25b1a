use predictions::error::ServiceError;
use predictions::record::PredictionRecord;
use predictions::response::Response;

#[test]
fn only_startup_failure_is_fatal() {
    assert!(ServiceError::StartupFailure.is_fatal());
    assert!(!ServiceError::PoolExhausted.is_fatal());
    assert!(!ServiceError::StoreUnavailable.is_fatal());
}

#[test]
fn every_failure_has_a_server_error_status() {
    assert_eq!(ServiceError::StartupFailure.status(), 500);
    assert_eq!(ServiceError::PoolExhausted.status(), 503);
    assert_eq!(ServiceError::StoreUnavailable.status(), 502);
}

#[test]
fn failures_describe_themselves() {
    assert_eq!(ServiceError::StartupFailure.message(), "cannot establish the connection pool");
    assert_eq!(ServiceError::PoolExhausted.message(), "connection pool exhausted");
    assert_eq!(ServiceError::StoreUnavailable.message(), "store unavailable");
}

#[test]
fn response_statuses() {
    assert_eq!(Response::Found(PredictionRecord::new()).status(), 200);
    assert_eq!(Response::NotFound.status(), 404);
    assert_eq!(Response::MethodNotAllowed.status(), 405);
    assert_eq!(Response::Failed(ServiceError::PoolExhausted).status(), 503);
    assert_eq!(Response::Failed(ServiceError::StoreUnavailable).status(), 502);
    assert_eq!(Response::Failed(ServiceError::StartupFailure).status(), 500);
}

#[test]
fn response_gives_its_record_or_its_error() {
    let mut record = PredictionRecord::new();
    record.insert(String::from("score"), 7);
    let found = Response::Found(record);
    assert_eq!(found.record().unwrap().get("score"), Some(7));
    assert_eq!(found.error(), None);

    let failed = Response::Failed(ServiceError::StoreUnavailable);
    assert!(failed.record().is_none());
    assert_eq!(failed.error(), Some(ServiceError::StoreUnavailable));

    assert!(Response::NotFound.record().is_none());
    assert_eq!(Response::NotFound.error(), None);
    assert!(Response::MethodNotAllowed.record().is_none());
    assert_eq!(Response::MethodNotAllowed.error(), None);
}
