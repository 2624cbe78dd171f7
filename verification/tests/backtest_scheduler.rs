use memos_trading_core::robot::backtester::backtest_scheduler::{
    canary_status, BacktestScheduler, CanaryStatus, SchedulerConfig, TradingMode,
};

#[derive(Debug, Clone, PartialEq)]
struct Metrics {
    win_rate: f64,
    sharpe_ratio: f64,
    max_drawdown_pct: f64,
    profit_factor: f64,
}

impl Metrics {
    fn canary(&self) -> CanaryStatus {
        canary_status(
            self.sharpe_ratio > 1.0,
            self.max_drawdown_pct < 20.0,
            self.win_rate > 45.0,
            self.profit_factor > 1.5,
        )
    }

    fn is_production_ready(&self) -> bool {
        self.canary() == CanaryStatus::ReadyForLive
    }
}

#[test]
fn test_backtest_result_ready() {
    let result = Metrics { win_rate: 55.0, sharpe_ratio: 1.5, max_drawdown_pct: 10.0, profit_factor: 2.0 };
    assert!(result.is_production_ready());
}

#[test]
fn test_backtest_result_poor_sharpe() {
    let result = Metrics { win_rate: 55.0, sharpe_ratio: 0.5, max_drawdown_pct: 10.0, profit_factor: 2.0 };
    assert!(!result.is_production_ready());
    assert_eq!(result.canary(), CanaryStatus::WaitForSharpeRatio);
}

#[test]
fn test_scheduler_should_run_backtest() {
    let config = SchedulerConfig { backtest_interval_secs: 10, ..Default::default() };
    let scheduler: BacktestScheduler<Metrics> = BacktestScheduler::new(config);
    assert!(scheduler.should_run_backtest());
}

#[test]
fn test_scheduler_consecutive_losses() {
    let config = SchedulerConfig { max_consecutive_losses: 3, ..Default::default() };
    let mut scheduler: BacktestScheduler<Metrics> = BacktestScheduler::new(config);
    assert_eq!(scheduler.current_mode, TradingMode::Paper);

    scheduler.record_trade_outcome(false);
    scheduler.record_trade_outcome(false);
    assert_eq!(scheduler.current_mode, TradingMode::Paper);

    scheduler.record_trade_outcome(false);
    assert_eq!(scheduler.current_mode, TradingMode::Disabled);
}

#[test]
fn test_scheduler_win_resets_loss_counter() {
    let config = SchedulerConfig { max_consecutive_losses: 5, ..Default::default() };
    let mut scheduler: BacktestScheduler<Metrics> = BacktestScheduler::new(config);

    scheduler.record_trade_outcome(false);
    scheduler.record_trade_outcome(false);
    assert_eq!(scheduler.consecutive_losses, 2);

    scheduler.record_trade_outcome(true);
    assert_eq!(scheduler.consecutive_losses, 0);
}

#[test]
fn canary_gates_are_checked_in_order() {
    assert_eq!(canary_status(true, true, true, true), CanaryStatus::ReadyForLive);
    assert_eq!(canary_status(true, true, true, false), CanaryStatus::WaitForProfitability);
    assert_eq!(canary_status(true, true, false, false), CanaryStatus::WaitForWinRate);
    assert_eq!(canary_status(true, false, false, true), CanaryStatus::WaitForDrawdownControl);
    assert_eq!(canary_status(false, false, false, false), CanaryStatus::WaitForSharpeRatio);
}

#[test]
fn default_config_values() {
    let c = SchedulerConfig::default();
    assert_eq!(c.backtest_interval_secs, 3600);
    assert_eq!(c.lookback_days, 30);
    assert_eq!(c.min_candles_for_backtest, 100);
    assert_eq!(c.max_consecutive_losses, 5);
    assert_eq!(c.paper_duration_before_live, 86400);
}

#[test]
fn backtest_due_only_after_interval() {
    let config = SchedulerConfig { backtest_interval_secs: 10, ..Default::default() };
    let mut s: BacktestScheduler<Metrics> = BacktestScheduler::new_at(config, 1_000);
    assert!(s.should_run_backtest_at(1_000));
    let m = Metrics { win_rate: 50.0, sharpe_ratio: 0.5, max_drawdown_pct: 5.0, profit_factor: 2.0 };
    s.process_result_at(m.clone(), m.canary(), false, 1_000);
    assert!(!s.should_run_backtest_at(1_010));
    assert!(s.should_run_backtest_at(1_011));
}

#[test]
fn paper_goes_live_after_paper_period_and_falls_back() {
    let config = SchedulerConfig { paper_duration_before_live: 100, ..Default::default() };
    let mut s: BacktestScheduler<Metrics> = BacktestScheduler::new_at(config, 0);
    let good = Metrics { win_rate: 55.0, sharpe_ratio: 1.5, max_drawdown_pct: 10.0, profit_factor: 2.0 };
    let bad = Metrics { win_rate: 30.0, sharpe_ratio: 1.5, max_drawdown_pct: 10.0, profit_factor: 2.0 };

    s.process_result_at(good.clone(), good.canary(), false, 100);
    assert_eq!(s.current_mode, TradingMode::Paper);
    assert_eq!(s.best_result, Some(good.clone()));

    s.process_result_at(good.clone(), good.canary(), false, 101);
    assert_eq!(s.current_mode, TradingMode::Live);

    s.process_result_at(bad.clone(), bad.canary(), false, 500);
    assert_eq!(s.current_mode, TradingMode::Paper);
    assert_eq!(s.mode_switch_time, Some(500));
    assert_eq!(s.last_result, Some(bad.clone()));
    assert_eq!(s.best_result, Some(good));

    s.process_result_at(bad.clone(), bad.canary(), true, 501);
    assert_eq!(s.best_result, Some(bad));
}

#[test]
fn disabled_scheduler_stays_disabled_on_good_result() {
    let config = SchedulerConfig { max_consecutive_losses: 1, paper_duration_before_live: 0, ..Default::default() };
    let mut s: BacktestScheduler<Metrics> = BacktestScheduler::new_at(config, 0);
    s.record_trade_outcome(false);
    assert_eq!(s.current_mode, TradingMode::Disabled);
    let good = Metrics { win_rate: 55.0, sharpe_ratio: 1.5, max_drawdown_pct: 10.0, profit_factor: 2.0 };
    s.process_result_at(good.clone(), good.canary(), true, 1_000);
    assert_eq!(s.current_mode, TradingMode::Disabled);
}
