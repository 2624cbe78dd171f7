use vstd::prelude::*;
use std::collections::VecDeque;
use vstd::string::StringExecFns;
use crate::clock::now_epoch_secs;
use crate::robot::advanced_monitoring::health::{HealthStatus, HealthView};
use crate::robot::data_pipeline::health::wrap_i64;

verus! {

/// Most readings the dashboard keeps (a day of one-minute readings).
pub const DASHBOARD_HISTORY_CAP: usize = 1440;

/// State of the trading system as the dashboard shows it.
#[derive(Debug, Clone, Copy, PartialEq, Eq, Structural)]
pub enum SystemStatus {
    Healthy,
    Warning,
    Critical,
    Offline,
}

/// One dashboard reading, taken at `timestamp` (epoch seconds). `values` holds
/// the floating-point figures (profit, win rate, drawdown, Sharpe ratio) in the
/// caller's own type.
pub struct MetricSnapshot<M> {
    pub timestamp: i64,
    pub values: M,
    pub active_trades: usize,
    pub total_closed_trades: usize,
    pub system_status: SystemStatus,
}

/// Live metrics dashboard: readings are taken while it is active, at most one per
/// update interval, and the latest `DASHBOARD_HISTORY_CAP` are kept.
pub struct RealtimeDashboard<M> {
    metrics_history: VecDeque<MetricSnapshot<M>>,
    current_metrics: MetricSnapshot<M>,
    update_interval_secs: u64,
    last_update: i64,
    is_active: bool,
    viewer_count: usize,
}

/// A reading taken less than the update interval after the last one is skipped;
/// the interval is compared as `as i64` reads it.
pub open spec fn too_soon(last_update: i64, now: i64, interval_secs: u64) -> bool {
    now - last_update < wrap_i64(interval_secs)
}

impl<M> RealtimeDashboard<M> {
    pub closed spec fn history(&self) -> Seq<MetricSnapshot<M>> {
        self.metrics_history@
    }

    pub closed spec fn current(&self) -> MetricSnapshot<M> {
        self.current_metrics
    }

    pub closed spec fn interval(&self) -> u64 {
        self.update_interval_secs
    }

    pub closed spec fn last_update(&self) -> i64 {
        self.last_update
    }

    pub closed spec fn active(&self) -> bool {
        self.is_active
    }

    pub closed spec fn viewers(&self) -> usize {
        self.viewer_count
    }

    /// `self` took (or, too soon after the last reading, skipped) a reading at `now`
    /// and became `t`, as `update_metrics_at` does on an active dashboard.
    pub open spec fn reading_step(
        self,
        t: Self,
        values: M,
        active_trades: usize,
        total_closed_trades: usize,
        system_status: SystemStatus,
        now: i64,
    ) -> bool {
        &&& t.active() == self.active()
        &&& t.interval() == self.interval()
        &&& t.viewers() == self.viewers()
        &&& too_soon(self.last_update(), now, self.interval()) ==> {
            &&& t.history() == self.history()
            &&& t.current() == self.current()
            &&& t.last_update() == self.last_update()
        }
        &&& !too_soon(self.last_update(), now, self.interval()) ==> {
            let snap = MetricSnapshot { timestamp: now, values, active_trades, total_closed_trades, system_status };
            &&& t.current() == snap
            &&& t.last_update() == now
            &&& t.history() == (if self.history().len() + 1 > DASHBOARD_HISTORY_CAP {
                self.history().push(snap).drop_first()
            } else {
                self.history().push(snap)
            })
        }
    }

    /// At most `DASHBOARD_HISTORY_CAP` readings are kept.
    pub closed spec fn wf(&self) -> bool {
        self.metrics_history@.len() <= DASHBOARD_HISTORY_CAP
    }

    /// An inactive dashboard at time `now` (epoch seconds), with no readings and no
    /// viewers; its current reading holds `initial` with no trades, healthy.
    pub fn new_at(update_interval_secs: u64, initial: M, now: i64) -> (r: Self)
        ensures
            r.wf(),
            r.history().len() == 0,
            r.current() == (MetricSnapshot {
                timestamp: now,
                values: initial,
                active_trades: 0,
                total_closed_trades: 0,
                system_status: SystemStatus::Healthy,
            }),
            r.interval() == update_interval_secs,
            r.last_update() == now,
            !r.active(),
            r.viewers() == 0,
    {
        RealtimeDashboard {
            metrics_history: VecDeque::new(),
            current_metrics: MetricSnapshot {
                timestamp: now,
                values: initial,
                active_trades: 0,
                total_closed_trades: 0,
                system_status: SystemStatus::Healthy,
            },
            update_interval_secs,
            last_update: now,
            is_active: false,
            viewer_count: 0,
        }
    }

    /// `new_at` at the current time of the machine's clock.
    pub fn new(update_interval_secs: u64, initial: M) -> (r: Self)
        ensures
            r.wf(),
            r.history().len() == 0,
            r.current().values == initial,
            r.interval() == update_interval_secs,
            !r.active(),
            r.viewers() == 0,
    {
        let now = now_epoch_secs();
        RealtimeDashboard::new_at(update_interval_secs, initial, now as i64)
    }

    /// Activates the dashboard; an error when it already is active.
    pub fn start(&mut self) -> (r: Result<(), String>)
        ensures
            r is Ok <==> !old(self).active(),
            final(self).active(),
            final(self).history() == old(self).history(),
            final(self).current() == old(self).current(),
            final(self).interval() == old(self).interval(),
            final(self).last_update() == old(self).last_update(),
            final(self).viewers() == old(self).viewers(),
            final(self).wf() == old(self).wf(),
    {
        if self.is_active {
            return Err(String::from_str("Dashboard zaten aktif"));
        }
        self.is_active = true;
        Ok(())
    }

    /// Deactivates the dashboard; an error when it is not active.
    pub fn stop(&mut self) -> (r: Result<(), String>)
        ensures
            r is Ok <==> old(self).active(),
            !final(self).active(),
            final(self).history() == old(self).history(),
            final(self).current() == old(self).current(),
            final(self).interval() == old(self).interval(),
            final(self).last_update() == old(self).last_update(),
            final(self).viewers() == old(self).viewers(),
            final(self).wf() == old(self).wf(),
    {
        if !self.is_active {
            return Err(String::from_str("Dashboard aktif değil"));
        }
        self.is_active = false;
        Ok(())
    }

    /// Takes a reading at time `now`: an error while inactive; nothing changes when
    /// it comes less than the update interval after the last reading; otherwise it
    /// becomes the current reading and joins the history, whose oldest reading
    /// leaves once there are more than `DASHBOARD_HISTORY_CAP`.
    pub fn update_metrics_at(
        &mut self,
        values: M,
        active_trades: usize,
        total_closed_trades: usize,
        system_status: SystemStatus,
        now: i64,
    ) -> (r: Result<(), String>) where M: Copy
        requires
            old(self).wf(),
        ensures
            final(self).wf(),
            r is Err <==> !old(self).active(),
            final(self).active() == old(self).active(),
            final(self).interval() == old(self).interval(),
            final(self).viewers() == old(self).viewers(),
            !old(self).active() || too_soon(old(self).last_update(), now, old(self).interval()) ==> {
                &&& final(self).history() == old(self).history()
                &&& final(self).current() == old(self).current()
                &&& final(self).last_update() == old(self).last_update()
            },
            old(self).active() && !too_soon(old(self).last_update(), now, old(self).interval()) ==> {
                let snap = MetricSnapshot { timestamp: now, values, active_trades, total_closed_trades, system_status };
                &&& final(self).current() == snap
                &&& final(self).last_update() == now
                &&& final(self).history() == (if old(self).history().len() + 1 > DASHBOARD_HISTORY_CAP {
                    old(self).history().push(snap).drop_first()
                } else {
                    old(self).history().push(snap)
                })
            },
    {
        if !self.is_active {
            return Err(String::from_str("Dashboard aktif değil"));
        }
        let iv: i128 = if self.update_interval_secs <= i64::MAX as u64 {
            self.update_interval_secs as i128
        } else {
            self.update_interval_secs as i128 - 0x1_0000_0000_0000_0000i128
        };
        if (now as i128) - (self.last_update as i128) < iv {
            return Ok(());
        }
        let snap = MetricSnapshot { timestamp: now, values, active_trades, total_closed_trades, system_status };
        self.current_metrics = MetricSnapshot { timestamp: now, values, active_trades, total_closed_trades, system_status };
        let ghost h0 = self.metrics_history@;
        self.metrics_history.push_back(snap);
        if self.metrics_history.len() > DASHBOARD_HISTORY_CAP {
            self.metrics_history.pop_front();
            assert(self.metrics_history@ =~= h0.push(snap).drop_first());
        }
        self.last_update = now;
        Ok(())
    }

    /// `update_metrics_at` at the current time of the machine's clock.
    pub fn update_metrics(
        &mut self,
        values: M,
        active_trades: usize,
        total_closed_trades: usize,
        system_status: SystemStatus,
    ) -> (r: Result<(), String>) where M: Copy
        requires
            old(self).wf(),
        ensures
            final(self).wf(),
            r is Err <==> !old(self).active(),
            final(self).active() == old(self).active(),
            final(self).viewers() == old(self).viewers(),
            !old(self).active() ==> final(self).history() == old(self).history() && final(self).current() == old(
                self,
            ).current() && final(self).last_update() == old(self).last_update(),
            old(self).active() ==> exists|now: i64|
                now >= 0 && #[trigger] old(self).reading_step(
                    *final(self),
                    values,
                    active_trades,
                    total_closed_trades,
                    system_status,
                    now,
                ),
    {
        let now = now_epoch_secs();
        let ghost before = *self;
        let r = self.update_metrics_at(values, active_trades, total_closed_trades, system_status, now as i64);
        assert(before.active() ==> before.reading_step(
            *self,
            values,
            active_trades,
            total_closed_trades,
            system_status,
            now as i64,
        ));
        r
    }

    /// The readings kept, oldest first.
    pub fn metrics_history(&self) -> (r: &VecDeque<MetricSnapshot<M>>)
        ensures
            r@ == self.history(),
    {
        &self.metrics_history
    }

    /// One more viewer.
    pub fn add_viewer(&mut self)
        requires
            old(self).viewers() < usize::MAX,
        ensures
            final(self).viewers() == old(self).viewers() + 1,
            final(self).history() == old(self).history(),
            final(self).current() == old(self).current(),
            final(self).active() == old(self).active(),
            final(self).wf() == old(self).wf(),
    {
        self.viewer_count = self.viewer_count + 1;
    }

    /// One viewer fewer, never below zero.
    pub fn remove_viewer(&mut self)
        ensures
            final(self).viewers() == (if old(self).viewers() == 0 { 0 } else { old(self).viewers() - 1 }),
            final(self).history() == old(self).history(),
            final(self).current() == old(self).current(),
            final(self).active() == old(self).active(),
            final(self).wf() == old(self).wf(),
    {
        self.viewer_count = if self.viewer_count == 0 { 0 } else { self.viewer_count - 1 };
    }

    pub fn viewer_count(&self) -> (r: usize)
        ensures
            r == self.viewers(),
    {
        self.viewer_count
    }

    pub fn current_metrics(&self) -> (r: &MetricSnapshot<M>)
        ensures
            *r == self.current(),
    {
        &self.current_metrics
    }

    /// Health from the current reading's status: an offline feed is a warning.
    pub fn check_health(&self) -> (r: HealthStatus)
        ensures
            r@ == (match self.current().system_status {
                SystemStatus::Healthy => HealthView::Healthy,
                SystemStatus::Warning => HealthView::Warning("Dashboard uyarı eşiğinde"@),
                SystemStatus::Critical => HealthView::Critical("Dashboard kritik düzeyde!"@),
                SystemStatus::Offline => HealthView::Warning("Dashboard veri akışı kesildi (Offline)"@),
            }),
    {
        match self.current_metrics.system_status {
            SystemStatus::Healthy => HealthStatus::Healthy,
            SystemStatus::Warning => HealthStatus::Warning(String::from_str("Dashboard uyarı eşiğinde")),
            SystemStatus::Critical => HealthStatus::Critical(String::from_str("Dashboard kritik düzeyde!")),
            SystemStatus::Offline => HealthStatus::Warning(String::from_str("Dashboard veri akışı kesildi (Offline)")),
        }
    }

    pub fn is_active(&self) -> (r: bool)
        ensures
            r == self.active(),
    {
        self.is_active
    }
}

} // verus!
