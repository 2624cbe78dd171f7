use memos_trading_core::robot::advanced_monitoring::alert_system::{format_two_decimals, AlertChannel, AlertConfig, AlertLevel, AlertSystem};
use memos_trading_core::robot::portfolio_manager::Hundredths;

#[test]
fn alert_system_requires_start() {
    let mut a = AlertSystem::new(AlertConfig::default());
    assert!(a.trigger_system_error_alert_at("boom", 0).is_err());
    assert!(a.stop().is_err());
    assert!(a.start().is_ok());
    assert!(a.start().is_err());
    assert!(a.stop().is_ok());
}

#[test]
fn drawdown_alert_fires_above_threshold_then_cools_down() {
    let mut a = AlertSystem::new(AlertConfig::default());
    a.start().unwrap();
    assert!(a.trigger_max_dd_alert_at(1500, 1_000).unwrap().is_none());
    let alert = a.trigger_max_dd_alert_at(2550, 1_000).unwrap().unwrap();
    assert_eq!(alert.level, AlertLevel::Critical);
    assert_eq!(alert.id, "ALRT_1");
    assert_eq!(alert.message, "DD Eşiği Aşıldı: 25.50% (Limit: 20.00%)");
    assert_eq!(alert.channels, vec![AlertChannel::Email, AlertChannel::Slack]);
    assert!(alert.sent);
    assert_eq!(alert.sent_at, Some(1_000));
    // cooldown of 300 s
    assert!(a.trigger_max_dd_alert_at(3000, 1_299).unwrap().is_none());
    let second = a.trigger_max_dd_alert_at(3000, 1_300).unwrap().unwrap();
    assert_eq!(second.id, "ALRT_2");
    assert_eq!(a.get_stats(), (0, 0, 0, 2));
}

#[test]
fn milestone_and_custom_alerts() {
    let cfg = AlertConfig { alert_cooldown_secs: 0, max_dd_threshold: Hundredths(1000), ..AlertConfig::default() };
    let mut a = AlertSystem::new(cfg);
    a.start().unwrap();
    assert!(a.trigger_profit_milestone_alert_at(999_999, None, 0).unwrap().is_none());
    let m = a.trigger_profit_milestone_alert_at(1_000_000, None, 0).unwrap().unwrap();
    assert_eq!(m.message, "Milestone Ulaşıldı: $10000.00");
    assert_eq!(m.level, AlertLevel::Info);
    let m = a.trigger_profit_milestone_alert_at(600, Some(505), 1).unwrap().unwrap();
    assert_eq!(m.message, "Milestone Ulaşıldı: $5.05");
    let c = a
        .create_custom_alert_at(AlertLevel::Warning, "t".to_string(), "m".to_string(), vec![AlertChannel::SMS], 2)
        .unwrap()
        .unwrap();
    assert_eq!(c.title, "t");
    assert_eq!(a.get_stats(), (2, 1, 0, 0));
}

#[test]
fn two_decimal_formatting() {
    assert_eq!(format_two_decimals(0), "0.00");
    assert_eq!(format_two_decimals(5), "0.05");
    assert_eq!(format_two_decimals(-50), "-0.50");
    assert_eq!(format_two_decimals(123_456), "1234.56");
}

#[test]
fn raised_alerts_are_recorded_and_start_the_cooldown() {
    let mut a = AlertSystem::new(AlertConfig::default());
    a.start().unwrap();
    let e = a.trigger_system_error_alert_at("db down", 50).unwrap().unwrap();
    assert_eq!(e.title, "⚠️ Kritik Sistem Hatası");
    assert_eq!(e.timestamp, 50);
    assert_eq!(e.channels, vec![AlertChannel::Log, AlertChannel::Email]);
    assert_eq!(a.get_stats(), (0, 0, 1, 0));
    // the cooldown started at 50 holds back every kind of alert until 350
    assert!(a.trigger_max_dd_alert_at(9_000, 349).unwrap().is_none());
    assert!(a.create_custom_alert_at(AlertLevel::Info, "x".to_string(), "y".to_string(), vec![], 100).unwrap().is_none());
    assert_eq!(a.get_stats(), (0, 0, 1, 0));
    let d = a.trigger_max_dd_alert_at(9_000, 350).unwrap().unwrap();
    assert_eq!(d.title, "🚨 Max Drawdown İhlali");
    assert_eq!(d.id, "ALRT_2");
    assert_eq!(a.get_stats(), (0, 0, 1, 1));
}
