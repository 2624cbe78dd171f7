use memos_trading_core::robot::advanced_monitoring::alert_system::{AlertChannel, AlertConfig, AlertLevel, AlertSystem};
use memos_trading_core::robot::advanced_monitoring::dashboard::{RealtimeDashboard, SystemStatus, DASHBOARD_HISTORY_CAP};
use memos_trading_core::robot::advanced_monitoring::health::HealthStatus;

#[test]
fn dashboard_needs_start_and_rejects_double_start() {
    let mut d = RealtimeDashboard::new_at(60, 0u32, 1_000);
    assert!(!d.is_active());
    assert!(d.update_metrics_at(1, 0, 0, SystemStatus::Healthy, 2_000).is_err());
    assert!(d.stop().is_err());
    assert!(d.start().is_ok());
    assert!(d.start().is_err());
    assert!(d.stop().is_ok());
    assert!(!d.is_active());
}

#[test]
fn dashboard_skips_readings_inside_the_interval() {
    let mut d = RealtimeDashboard::new_at(60, 0u32, 1_000);
    d.start().unwrap();
    assert!(d.update_metrics_at(7, 1, 2, SystemStatus::Healthy, 1_059).is_ok());
    assert_eq!(d.metrics_history().len(), 0, "too soon after construction");
    assert!(d.update_metrics_at(8, 1, 3, SystemStatus::Warning, 1_060).is_ok());
    assert_eq!(d.metrics_history().len(), 1);
    assert_eq!(d.current_metrics().values, 8);
    assert_eq!(d.current_metrics().timestamp, 1_060);
    assert_eq!(d.current_metrics().total_closed_trades, 3);
    assert!(d.update_metrics_at(9, 1, 3, SystemStatus::Healthy, 1_100).is_ok());
    assert_eq!(d.current_metrics().values, 8, "reading skipped");
}

#[test]
fn dashboard_keeps_the_latest_readings() {
    let mut d = RealtimeDashboard::new_at(0, 0usize, 0);
    d.start().unwrap();
    for t in 0..(DASHBOARD_HISTORY_CAP + 5) {
        d.update_metrics_at(t, 0, 0, SystemStatus::Healthy, t as i64).unwrap();
    }
    let h = d.metrics_history();
    assert_eq!(h.len(), DASHBOARD_HISTORY_CAP);
    assert_eq!(h[0].values, 5);
    assert_eq!(h[h.len() - 1].values, DASHBOARD_HISTORY_CAP + 4);
}

#[test]
fn dashboard_viewers_never_go_negative() {
    let mut d = RealtimeDashboard::new_at(0, (), 0);
    d.remove_viewer();
    assert_eq!(d.viewer_count(), 0);
    d.add_viewer();
    d.add_viewer();
    d.remove_viewer();
    assert_eq!(d.viewer_count(), 1);
}

#[test]
fn dashboard_health_follows_status() {
    let mut d = RealtimeDashboard::new_at(0, (), 0);
    assert_eq!(d.check_health(), HealthStatus::Healthy);
    d.start().unwrap();
    d.update_metrics_at((), 0, 0, SystemStatus::Offline, 1).unwrap();
    assert_eq!(d.check_health(), HealthStatus::Warning("Dashboard veri akışı kesildi (Offline)".to_string()));
    d.update_metrics_at((), 0, 0, SystemStatus::Critical, 2).unwrap();
    assert_eq!(d.check_health(), HealthStatus::Critical("Dashboard kritik düzeyde!".to_string()));
}

#[test]
fn alert_health_counts_critical_alerts() {
    let cfg = AlertConfig { alert_cooldown_secs: 0, ..AlertConfig::default() };
    let mut a = AlertSystem::new(cfg);
    a.start().unwrap();
    assert_eq!(a.check_health(), HealthStatus::Healthy);
    for t in 0..3 {
        a.create_custom_alert_at(AlertLevel::Critical, "c".to_string(), "m".to_string(), vec![AlertChannel::Log], t)
            .unwrap();
    }
    assert_eq!(a.check_health(), HealthStatus::Critical("Son 1000 olayda 3 kritik uyarı mevcut!".to_string()));
}

#[test]
fn alert_flood_is_an_anomaly() {
    let cfg = AlertConfig { alert_cooldown_secs: 0, ..AlertConfig::default() };
    let mut a = AlertSystem::new(cfg);
    a.start().unwrap();
    for t in 0..50 {
        a.trigger_system_error_alert_at("boom", t).unwrap();
    }
    assert_eq!(a.detect_anomaly(), None, "fifty is not more than the limit");
    a.trigger_system_error_alert_at("boom", 50).unwrap();
    assert_eq!(a.detect_anomaly(), Some("Aşırı hata yoğunluğu (Log Flooding)".to_string()));
}
