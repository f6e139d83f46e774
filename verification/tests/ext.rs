use convergio_http_bridge::ext::{health_status, Health, PoolProbe};

#[test]
fn health_without_pool_is_degraded() {
    assert!(matches!(health_status(PoolProbe::NoPool), Health::Degraded { .. }));
}

#[test]
fn health_reasons_name_the_failure() {
    match health_status(PoolProbe::NoPool) {
        Health::Degraded { reason } => assert_eq!(reason, "no pool configured"),
        Health::Healthy => panic!("expected degraded"),
    }
    match health_status(PoolProbe::PoolError("timed out".to_string())) {
        Health::Degraded { reason } => assert_eq!(reason, "db pool: timed out"),
        Health::Healthy => panic!("expected degraded"),
    }
    match health_status(PoolProbe::QueryFailed("no such table".to_string())) {
        Health::Degraded { reason } => {
            assert_eq!(reason, "cannot query extensions: no such table")
        }
        Health::Healthy => panic!("expected degraded"),
    }
    assert!(matches!(health_status(PoolProbe::Listed), Health::Healthy));
}
