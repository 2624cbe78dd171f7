use memos_trading_core::robot::data_pipeline::{
    AnomalyKind, AnomalySeverity, PipelineAnomalyRuntime, PipelineStatus, StepStatus,
};

fn make_anomaly(severity: AnomalySeverity, msg: &str, created_at: u64) -> PipelineAnomalyRuntime {
    PipelineAnomalyRuntime {
        severity, kind: AnomalyKind::ApiError,
        message: msg.into(),
        fix_hint: None, auto_fixed: false,
        created_at,
    }
}

#[test]
fn purge_keeps_recent_warning_drops_stale_warning() {
    let now: u64 = 10_000;
    let mut p = PipelineStatus::new();
    p.anomalies.push(make_anomaly(AnomalySeverity::Warning, "fresh", now - 100));
    p.anomalies.push(make_anomaly(AnomalySeverity::Warning, "stale", now - 5_000));
    let n = p.purge_stale_warnings(now, 1_000);
    assert_eq!(n, 1, "stale warning was not dropped");
    assert_eq!(p.anomalies.len(), 1);
    assert_eq!(p.anomalies[0].message, "fresh");
}

#[test]
fn purge_never_drops_critical_regardless_of_age() {
    let now: u64 = 200_000;
    let mut p = PipelineStatus::new();
    p.anomalies.push(make_anomaly(AnomalySeverity::Critical, "ancient crit", now - 100_000));
    let n = p.purge_stale_warnings(now, 60);
    assert_eq!(n, 0, "Critical was purged");
    assert_eq!(p.anomalies.len(), 1);
}

#[test]
fn purge_keeps_created_at_zero_warnings_for_backward_compat() {
    let now: u64 = 10_000;
    let mut p = PipelineStatus::new();
    p.anomalies.push(make_anomaly(AnomalySeverity::Warning, "no-ts", 0));
    let n = p.purge_stale_warnings(now, 60);
    assert_eq!(n, 0);
    assert_eq!(p.anomalies.len(), 1);
}

#[test]
fn purge_with_zero_max_age_is_noop() {
    let now: u64 = 10_000;
    let mut p = PipelineStatus::new();
    p.anomalies.push(make_anomaly(AnomalySeverity::Warning, "old", now - 5_000));
    let n = p.purge_stale_warnings(now, 0);
    assert_eq!(n, 0);
    assert_eq!(p.anomalies.len(), 1);
}

#[test]
fn push_anomaly_stamps_created_at() {
    let mut p = PipelineStatus::new();
    p.push_anomaly(AnomalySeverity::Warning, AnomalyKind::ApiError, "test");
    assert_eq!(p.anomalies.len(), 1);
    assert!(p.anomalies[0].created_at > 0, "created_at was not stamped");
}

#[test]
fn push_anomaly_dedupes_identical_and_caps_queue() {
    let mut p = PipelineStatus::new();
    p.push_anomaly_at(AnomalySeverity::Warning, AnomalyKind::Drift, "same", 5);
    p.push_anomaly_at(AnomalySeverity::Warning, AnomalyKind::Drift, "same", 9);
    assert_eq!(p.anomalies.len(), 1);
    assert_eq!(p.anomalies[0].created_at, 5);
    for i in 0..60u64 {
        p.push_anomaly_at(AnomalySeverity::Info, AnomalyKind::Custom, &format!("m{i}"), i + 10);
    }
    assert_eq!(p.anomalies.len(), 50);
    assert_eq!(p.anomalies[49].message, "m59");
    assert_eq!(p.anomalies[0].message, "m10");
}

#[test]
fn record_step_upserts_by_label() {
    let mut p = PipelineStatus::new();
    p.record_step("a", StepStatus::Running, 1, 0);
    p.record_step("b", StepStatus::Idle, 2, 0);
    p.record_step("a", StepStatus::Done, 3, 7);
    assert_eq!(p.chain_steps.len(), 2);
    assert_eq!(p.chain_steps[0].label, "a");
    assert_eq!(p.chain_steps[0].status, StepStatus::Done);
    assert_eq!(p.chain_steps[0].last_run_secs, 3);
    assert_eq!(p.chain_steps[0].overdue_secs, 7);
    assert_eq!(p.chain_steps[1].label, "b");
}

#[test]
fn purge_twice_drops_nothing_more() {
    let now: u64 = 10_000;
    let mut p = PipelineStatus::new();
    p.anomalies.push(make_anomaly(AnomalySeverity::Warning, "stale", now - 5_000));
    p.anomalies.push(make_anomaly(AnomalySeverity::Info, "fresh", now - 10));
    assert_eq!(p.purge_stale_warnings(now, 1_000), 1);
    assert_eq!(p.purge_stale_warnings(now, 1_000), 0);
    assert_eq!(p.anomalies.len(), 1);
}

#[test]
fn repeated_anomaly_leaves_an_overfull_queue_unchanged() {
    let mut p = PipelineStatus::new();
    for i in 0..60u64 {
        p.anomalies.push(make_anomaly(AnomalySeverity::Warning, &format!("m{i}"), i + 1));
    }
    p.push_anomaly_at(AnomalySeverity::Warning, AnomalyKind::ApiError, "m7", 500);
    assert_eq!(p.anomalies.len(), 60);
    assert_eq!(p.anomalies[0].message, "m0");
    assert_eq!(p.anomalies[7].created_at, 8);
    p.push_anomaly(AnomalySeverity::Warning, AnomalyKind::ApiError, "m59");
    assert_eq!(p.anomalies.len(), 60);
}
