use content_sync::monitoring::Monitoring;
use content_sync::status::EngineStatus;

#[test]
fn monitoring_test_ok() {
    let values_not_ok = Monitoring::default();

    assert!(!values_not_ok.ok());

    let mut values_ok = Monitoring::default();
    values_ok.db.ok = true;
    values_ok.cache.ok = true;

    assert!(values_ok.ok());
}

#[test]
fn engine_test_ok() {
    let values_unhealthy = EngineStatus::default();

    assert!(!values_unhealthy.healthy());

    let mut values_healthy = EngineStatus::default();
    values_healthy.db.healthy = true;
    values_healthy.cache.healthy = true;

    assert!(values_healthy.healthy());
}

#[test]
fn reported_error_is_not_ok() {
    let mut values = Monitoring::default();
    values.db.ok = true;
    values.cache.ok = true;
    values.cache.error = Some("connection refused".to_string());

    assert!(!values.ok());

    let mut status = EngineStatus::default();
    status.db.healthy = true;
    status.cache.healthy = true;
    status.db.error = Some("timeout".to_string());

    assert!(!status.healthy());
}
