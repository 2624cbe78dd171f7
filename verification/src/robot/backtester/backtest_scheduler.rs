use vstd::prelude::*;
use crate::clock::now_epoch_secs;

verus! {

/// Canary status of a backtest: whether paper trading may graduate to live, or
/// which condition still holds it back.
#[derive(Debug, Clone, Copy, PartialEq, Eq, Structural)]
pub enum CanaryStatus {
    ReadyForLive,
    WaitForSharpeRatio,
    WaitForDrawdownControl,
    WaitForWinRate,
    WaitForProfitability,
}

/// The canary status from the four conditions, taken in order Sharpe ratio,
/// drawdown, win rate, profit factor: the first that fails names the status.
pub open spec fn canary_spec(sharpe_ok: bool, drawdown_ok: bool, win_rate_ok: bool, profit_factor_ok: bool) -> CanaryStatus {
    if !sharpe_ok {
        CanaryStatus::WaitForSharpeRatio
    } else if !drawdown_ok {
        CanaryStatus::WaitForDrawdownControl
    } else if !win_rate_ok {
        CanaryStatus::WaitForWinRate
    } else if !profit_factor_ok {
        CanaryStatus::WaitForProfitability
    } else {
        CanaryStatus::ReadyForLive
    }
}

/// Canary status from the results of the four gates (Sharpe > 1, drawdown < 20 %,
/// win rate > 45 %, profit factor > 1.5).
pub fn canary_status(sharpe_ok: bool, drawdown_ok: bool, win_rate_ok: bool, profit_factor_ok: bool) -> (r: CanaryStatus)
    ensures
        r == canary_spec(sharpe_ok, drawdown_ok, win_rate_ok, profit_factor_ok),
        (r == CanaryStatus::ReadyForLive) == (sharpe_ok && drawdown_ok && win_rate_ok && profit_factor_ok),
{
    match (sharpe_ok, drawdown_ok, win_rate_ok, profit_factor_ok) {
        (true, true, true, true) => CanaryStatus::ReadyForLive,
        (true, true, true, false) => CanaryStatus::WaitForProfitability,
        (true, true, false, _) => CanaryStatus::WaitForWinRate,
        (true, false, _, _) => CanaryStatus::WaitForDrawdownControl,
        (false, _, _, _) => CanaryStatus::WaitForSharpeRatio,
    }
}

/// Scheduler settings.
#[derive(Debug, Clone, Copy, PartialEq, Eq, Structural)]
pub struct SchedulerConfig {
    /// How often to backtest (seconds).
    pub backtest_interval_secs: u64,
    /// Days of history used.
    pub lookback_days: u64,
    /// Fewest bars worth a backtest.
    pub min_candles_for_backtest: usize,
    /// Fail-safe: consecutive losing trades that disable trading.
    pub max_consecutive_losses: usize,
    /// Paper-trading time required before going live (seconds).
    pub paper_duration_before_live: u64,
}

impl SchedulerConfig {
    /// Defaults: hourly backtests over 30 days, at least 100 bars, 5 losses, one day
    /// of paper trading.
    pub fn default_config() -> (r: Self)
        ensures
            r.backtest_interval_secs == 3600,
            r.lookback_days == 30,
            r.min_candles_for_backtest == 100,
            r.max_consecutive_losses == 5,
            r.paper_duration_before_live == 86400,
    {
        SchedulerConfig {
            backtest_interval_secs: 3600,
            lookback_days: 30,
            min_candles_for_backtest: 100,
            max_consecutive_losses: 5,
            paper_duration_before_live: 86400,
        }
    }
}

impl Default for SchedulerConfig {
    fn default() -> (r: Self)
        ensures
            r == SchedulerConfig::default_config_spec(),
    {
        SchedulerConfig::default_config()
    }
}

impl SchedulerConfig {
    pub open spec fn default_config_spec() -> SchedulerConfig {
        SchedulerConfig {
            backtest_interval_secs: 3600,
            lookback_days: 30,
            min_candles_for_backtest: 100,
            max_consecutive_losses: 5,
            paper_duration_before_live: 86400,
        }
    }
}

/// Trading mode the scheduler allows.
#[derive(Debug, Clone, Copy, PartialEq, Eq, Structural)]
pub enum TradingMode {
    /// Trading switched off.
    Disabled,
    /// Paper trading (safe testing).
    Paper,
    /// Live trading (real money).
    Live,
}

/// Periodic backtest scheduler with a paper-to-live canary and a loss fail-safe.
/// `R` is the backtest result kept as the last and the best result.
pub struct BacktestScheduler<R> {
    pub config: SchedulerConfig,
    /// Epoch seconds of the last backtest.
    pub last_backtest_time: Option<i64>,
    pub last_result: Option<R>,
    pub best_result: Option<R>,
    pub current_mode: TradingMode,
    /// Epoch seconds of the last switch into paper mode.
    pub mode_switch_time: Option<i64>,
    pub consecutive_losses: usize,
}

/// `now - then > secs`, computed without overflow.
pub open spec fn elapsed_over(now: i64, then: i64, secs: u64) -> bool {
    now - then > secs
}

fn elapsed_exceeds(now: i64, then: i64, secs: u64) -> (r: bool)
    ensures
        r == elapsed_over(now, then, secs),
{
    (now as i128) - (then as i128) > (secs as i128)
}

/// The mode after a backtest with canary status `canary` at `now`: a paper scheduler goes
/// live once the status is ready and the paper period has elapsed; a live
/// scheduler falls back to paper on any other status; otherwise unchanged.
pub open spec fn mode_after_result(
    mode: TradingMode,
    switch_time: Option<i64>,
    canary: CanaryStatus,
    now: i64,
    paper_secs: u64,
) -> (TradingMode, Option<i64>) {
    if canary == CanaryStatus::ReadyForLive {
        if mode == TradingMode::Paper && switch_time is Some && elapsed_over(now, switch_time->0, paper_secs) {
            (TradingMode::Live, switch_time)
        } else {
            (mode, switch_time)
        }
    } else if mode == TradingMode::Live {
        (TradingMode::Paper, Some(now))
    } else {
        (mode, switch_time)
    }
}

/// Loss counter and mode after one trade outcome.
pub open spec fn after_trade(losses: int, mode: TradingMode, is_win: bool, max_losses: int) -> (int, TradingMode) {
    if is_win {
        (0, mode)
    } else if losses + 1 >= max_losses {
        (losses + 1, TradingMode::Disabled)
    } else {
        (losses + 1, mode)
    }
}

/// State after `k` consecutive losing trades.
pub open spec fn after_losses(losses: int, mode: TradingMode, k: nat, max_losses: int) -> (int, TradingMode)
    decreases k,
{
    if k == 0 {
        (losses, mode)
    } else {
        let prev = after_losses(losses, mode, (k - 1) as nat, max_losses);
        after_trade(prev.0, prev.1, false, max_losses)
    }
}

/// Fail-safe: starting from no losses in any mode, a run of at least
/// `max_consecutive_losses` losing trades leaves trading disabled, and a shorter run
/// leaves the mode unchanged.
pub proof fn law_loss_failsafe(mode: TradingMode, k: nat, max_losses: int)
    requires
        max_losses >= 1,
    ensures
        after_losses(0, mode, k, max_losses).0 == k,
        k >= max_losses ==> after_losses(0, mode, k, max_losses).1 == TradingMode::Disabled,
        k < max_losses ==> after_losses(0, mode, k, max_losses).1 == mode,
    decreases k,
{
    if k > 0 {
        law_loss_failsafe(mode, (k - 1) as nat, max_losses);
    }
}

/// A backtest result never re-enables a disabled scheduler, and the scheduler goes
/// live only from paper mode on a ready status after the paper period.
pub proof fn law_result_mode_transitions(
    mode: TradingMode,
    switch_time: Option<i64>,
    canary: CanaryStatus,
    now: i64,
    paper_secs: u64,
)
    ensures
        mode == TradingMode::Disabled ==> mode_after_result(mode, switch_time, canary, now, paper_secs).0
            == TradingMode::Disabled,
        mode_after_result(mode, switch_time, canary, now, paper_secs).0 == TradingMode::Live ==> {
            ||| mode == TradingMode::Live && canary == CanaryStatus::ReadyForLive
            ||| mode == TradingMode::Paper && canary == CanaryStatus::ReadyForLive && switch_time is Some
                && elapsed_over(now, switch_time->0, paper_secs)
        },
{
}

/// Whether a backtest is due at `now` after the last one at `last`: none ran yet,
/// or more than `interval_secs` have passed.
pub open spec fn due_at(last: Option<i64>, interval_secs: u64, now: i64) -> bool {
    match last {
        None => true,
        Some(t) => elapsed_over(now, t, interval_secs),
    }
}

impl<R: Clone> BacktestScheduler<R> {
    /// A scheduler in paper mode that switched to paper at `now`.
    pub fn new_at(config: SchedulerConfig, now: i64) -> (r: Self)
        ensures
            r.config == config,
            r.last_backtest_time is None,
            r.last_result is None,
            r.best_result is None,
            r.current_mode == TradingMode::Paper,
            r.mode_switch_time == Some(now),
            r.consecutive_losses == 0,
    {
        BacktestScheduler {
            config,
            last_backtest_time: None,
            last_result: None,
            best_result: None,
            current_mode: TradingMode::Paper,
            mode_switch_time: Some(now),
            consecutive_losses: 0,
        }
    }

    /// A scheduler in paper mode that switched to paper now.
    pub fn new(config: SchedulerConfig) -> (r: Self)
        ensures
            r.config == config,
            r.last_backtest_time is None,
            r.last_result is None,
            r.best_result is None,
            r.current_mode == TradingMode::Paper,
            r.mode_switch_time is Some,
            r.consecutive_losses == 0,
    {
        let now = now_epoch_secs();
        Self::new_at(config, now as i64)
    }

    /// Whether a backtest is due at `now`: none ran yet, or more than the configured
    /// interval has passed since the last one.
    pub fn should_run_backtest_at(&self, now: i64) -> (r: bool)
        ensures
            r == match self.last_backtest_time {
                None => true,
                Some(t) => elapsed_over(now, t, self.config.backtest_interval_secs),
            },
    {
        match self.last_backtest_time {
            None => true,
            Some(t) => elapsed_exceeds(now, t, self.config.backtest_interval_secs),
        }
    }

    /// Whether a backtest is due now (always, when none ran yet): the answer of
    /// `should_run_backtest_at` at the clock's reading, a time between 0 and
    /// `i64::MAX` epoch seconds.
    pub fn should_run_backtest(&self) -> (r: bool)
        ensures
            self.last_backtest_time is None ==> r,
            exists|now: i64| 0 <= now && #[trigger] due_at(self.last_backtest_time, self.config.backtest_interval_secs, now) == r,
    {
        let now = now_epoch_secs();
        let r = self.should_run_backtest_at(now as i64);
        assert(due_at(self.last_backtest_time, self.config.backtest_interval_secs, now as i64) == r);
        r
    }

    /// Records a backtest result at `now`. `canary` is the result.s canary status and
    /// `better_than_best` whether it beats the best result so far. The best result
    /// becomes a copy of `result` when there is none or it is beaten; the mode
    /// follows `mode_after_result`.
    pub fn process_result_at(&mut self, result: R, canary: CanaryStatus, better_than_best: bool, now: i64)
        ensures
            final(self).last_backtest_time == Some(now),
            final(self).last_result == Some(result),
            (old(self).best_result is None || better_than_best) ==> (final(self).best_result matches Some(b)
                && cloned(result, b)),
            !(old(self).best_result is None || better_than_best) ==> final(self).best_result
                == old(self).best_result,
            (final(self).current_mode, final(self).mode_switch_time) == mode_after_result(
                old(self).current_mode,
                old(self).mode_switch_time,
                canary,
                now,
                old(self).config.paper_duration_before_live,
            ),
            final(self).config == old(self).config,
            final(self).consecutive_losses == old(self).consecutive_losses,
    {
        self.last_backtest_time = Some(now);
        let replace = match self.best_result {
            Some(_) => better_than_best,
            None => true,
        };
        if replace {
            self.best_result = Some(result.clone());
        }
        if canary == CanaryStatus::ReadyForLive {
            if self.current_mode == TradingMode::Paper {
                match self.mode_switch_time {
                    Some(switch_time) => {
                        if elapsed_exceeds(now, switch_time, self.config.paper_duration_before_live) {
                            self.current_mode = TradingMode::Live;
                        }
                    },
                    None => {},
                }
            }
        } else {
            if self.current_mode == TradingMode::Live {
                self.current_mode = TradingMode::Paper;
                self.mode_switch_time = Some(now);
            }
        }
        self.last_result = Some(result);
    }

    /// Records a backtest result now (see `process_result_at`).
    pub fn process_result(&mut self, result: R, canary: CanaryStatus, better_than_best: bool)
        ensures
            final(self).last_result == Some(result),
            (old(self).best_result is None || better_than_best) ==> (final(self).best_result matches Some(b)
                && cloned(result, b)),
            !(old(self).best_result is None || better_than_best) ==> final(self).best_result
                == old(self).best_result,
            final(self).last_backtest_time is Some,
            (final(self).current_mode, final(self).mode_switch_time) == mode_after_result(
                old(self).current_mode,
                old(self).mode_switch_time,
                canary,
                final(self).last_backtest_time->0,
                old(self).config.paper_duration_before_live,
            ),
            final(self).config == old(self).config,
            final(self).consecutive_losses == old(self).consecutive_losses,
    {
        let now = now_epoch_secs() as i64;
        self.process_result_at(result, canary, better_than_best, now);
    }

    /// Records a trade outcome: a win resets the loss counter; a loss increments it,
    /// and reaching `max_consecutive_losses` disables trading.
    pub fn record_trade_outcome(&mut self, is_win: bool)
        requires
            old(self).consecutive_losses < usize::MAX,
        ensures
            (final(self).consecutive_losses as int, final(self).current_mode) == after_trade(
                old(self).consecutive_losses as int,
                old(self).current_mode,
                is_win,
                old(self).config.max_consecutive_losses as int,
            ),
            final(self).config == old(self).config,
            final(self).last_result == old(self).last_result,
            final(self).best_result == old(self).best_result,
            final(self).last_backtest_time == old(self).last_backtest_time,
            final(self).mode_switch_time == old(self).mode_switch_time,
    {
        if is_win {
            self.consecutive_losses = 0;
        } else {
            self.consecutive_losses = self.consecutive_losses + 1;
            if self.consecutive_losses >= self.config.max_consecutive_losses {
                self.current_mode = TradingMode::Disabled;
            }
        }
    }
}

} // verus!
