use memos_trading_core::robot::config_helpers::{PositionConfigBuilder, PositionManagementProfile, SecurityProfile};
use memos_trading_core::robot::portfolio_manager::{Hundredths, TrailingStopConfig};
use memos_trading_core::robot::security::UserRole;

fn pct(h: Hundredths) -> f64 {
    f64::from(h.0) / 100.0
}

#[test]
fn test_conservative_profile() {
    let profile = PositionManagementProfile::Conservative;
    let ts = profile.trailing_stop_config();
    let si = profile.scale_in_config();
    let so = profile.scale_out_config();

    assert_eq!(pct(ts.trailing_pct), 1.5);
    assert!(!si.enabled);
    assert_eq!(so.profit_targets.len(), 2);
}

#[test]
fn test_aggressive_profile() {
    let profile = PositionManagementProfile::Aggressive;
    let ts = profile.trailing_stop_config();
    let si = profile.scale_in_config();

    assert_eq!(pct(ts.trailing_pct), 4.0);
    assert!(si.enabled);
    assert_eq!(si.max_scalein_count, 4);
}

#[test]
fn test_security_profiles() {
    let dev = SecurityProfile::Development;
    let prod = SecurityProfile::Production;

    assert!(dev.trade_rate_limit().max_per_second > prod.trade_rate_limit().max_per_second);
    assert!(dev.emergency_stop_roles().len() >= prod.emergency_stop_roles().len());
}

#[test]
fn test_builder_pattern() {
    let (ts, si, _so) = PositionConfigBuilder::new(PositionManagementProfile::Balanced)
        .with_trailing_stop(TrailingStopConfig {
            trailing_pct: Hundredths(300),
            min_movement_bps: 75,
            enabled: true,
        })
        .build();

    assert_eq!(pct(ts.trailing_pct), 3.0);
    assert_eq!(si.max_scalein_count, 2);
}

#[test]
fn balanced_scale_out_targets_and_share() {
    let so = PositionManagementProfile::Balanced.scale_out_config();
    assert_eq!(pct(so.scaleout_pct), 33.33);
    let targets: Vec<f64> = so.profit_targets.iter().map(|h| pct(*h)).collect();
    assert_eq!(targets, vec![2.0, 5.0, 10.0]);
}

#[test]
fn security_limits_tighten_with_strictness() {
    let order = [SecurityProfile::Development, SecurityProfile::Staging, SecurityProfile::Production, SecurityProfile::Enterprise];
    for w in order.windows(2) {
        assert!(w[0].api_rate_limit().max_per_second >= w[1].api_rate_limit().max_per_second);
        assert!(w[0].emergency_stop_roles().len() >= w[1].emergency_stop_roles().len());
    }
    assert_eq!(SecurityProfile::Enterprise.api_rate_limit().limit_type, "api_calls_per_second");
    assert_eq!(SecurityProfile::Staging.audit_export_interval_minutes(), 60);
    assert_eq!(SecurityProfile::Production.emergency_stop_roles(), vec![UserRole::Admin]);
}

#[test]
fn builder_without_overrides_uses_presets() {
    let (ts, si, so) = PositionConfigBuilder::new(PositionManagementProfile::Scalper).build();
    assert_eq!(ts, PositionManagementProfile::Scalper.trailing_stop_config());
    assert_eq!(si, PositionManagementProfile::Scalper.scale_in_config());
    assert_eq!(so.profit_targets, vec![Hundredths(50), Hundredths(100)]);
}

#[test]
fn builder_keeps_the_last_override_of_each_kind() {
    let t1 = TrailingStopConfig { trailing_pct: Hundredths(300), min_movement_bps: 75, enabled: true };
    let t2 = TrailingStopConfig { trailing_pct: Hundredths(120), min_movement_bps: 10, enabled: false };
    let conservative = PositionManagementProfile::Conservative;
    let (ts, si, so) = PositionConfigBuilder::new(PositionManagementProfile::Aggressive)
        .with_trailing_stop(t1)
        .with_scale_in(conservative.scale_in_config())
        .with_trailing_stop(t2)
        .build();
    assert_eq!(ts, t2);
    assert_eq!(si, conservative.scale_in_config());
    assert_eq!(so.profit_targets, PositionManagementProfile::Aggressive.scale_out_config().profit_targets);
}
