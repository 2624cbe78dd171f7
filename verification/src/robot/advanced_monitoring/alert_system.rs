use vstd::prelude::*;
use std::collections::VecDeque;
use vstd::string::StringExecFns;
use crate::clock::now_epoch_secs;
use crate::robot::advanced_monitoring::health::{HealthStatus, HealthView};
use crate::robot::data_pipeline::health::wrap_i64;
use crate::robot::portfolio_manager::Hundredths;
use crate::text::{decimal_u64, u64_to_text};

verus! {

/// Most alerts kept in the history.
pub const ALERT_HISTORY_CAP: usize = 1000;

/// Severity of an alert.
#[derive(Debug, Clone, Copy, PartialEq, Eq, Structural)]
pub enum AlertLevel {
    Info,
    Warning,
    Error,
    Critical,
}

/// Where an alert is delivered.
#[derive(Debug, Clone, Copy, PartialEq, Eq, Structural)]
pub enum AlertChannel {
    Email,
    Slack,
    SMS,
    Log,
}

/// One alert. Times are epoch seconds.
#[derive(Debug)]
pub struct Alert {
    pub id: String,
    pub timestamp: i64,
    pub level: AlertLevel,
    pub title: String,
    pub message: String,
    pub channels: Vec<AlertChannel>,
    pub sent: bool,
    pub sent_at: Option<i64>,
}

fn copy_channels(v: &Vec<AlertChannel>) -> (r: Vec<AlertChannel>)
    ensures
        r@ == v@,
{
    let mut out: Vec<AlertChannel> = Vec::new();
    let mut i: usize = 0;
    while i < v.len()
        invariant
            0 <= i <= v@.len(),
            out@ == v@.take(i as int),
        decreases v.len() - i,
    {
        out.push(v[i]);
        i += 1;
        assert(out@ =~= v@.take(i as int));
    }
    assert(v@.take(v@.len() as int) =~= v@);
    out
}

/// Abstract view of an alert.
pub struct AlertView {
    pub id: Seq<char>,
    pub timestamp: i64,
    pub level: AlertLevel,
    pub title: Seq<char>,
    pub message: Seq<char>,
    pub channels: Seq<AlertChannel>,
    pub sent: bool,
    pub sent_at: Option<i64>,
}

impl View for Alert {
    type V = AlertView;

    open spec fn view(&self) -> AlertView {
        AlertView {
            id: self.id@,
            timestamp: self.timestamp,
            level: self.level,
            title: self.title@,
            message: self.message@,
            channels: self.channels@,
            sent: self.sent,
            sent_at: self.sent_at,
        }
    }
}

impl Clone for Alert {
    fn clone(&self) -> (r: Self)
        ensures
            r@ == self@,
    {
        let channels = copy_channels(&self.channels);
        Alert {
            id: self.id.clone(),
            timestamp: self.timestamp,
            level: self.level,
            title: self.title.clone(),
            message: self.message.clone(),
            channels,
            sent: self.sent,
            sent_at: self.sent_at,
        }
    }
}

/// Alert settings. The drawdown threshold is a percentage in hundredths, the profit
/// milestone an amount in cents.
pub struct AlertConfig {
    pub max_dd_threshold: Hundredths,
    pub profit_milestone: i64,
    pub email_recipients: Vec<String>,
    pub slack_webhook: Option<String>,
    pub sms_recipients: Vec<String>,
    pub alert_cooldown_secs: u64,
}

impl Default for AlertConfig {
    /// Drawdown threshold 20 %, profit milestone 10000.00, five minutes of cooldown,
    /// no recipients.
    fn default() -> (r: Self)
        ensures
            r.max_dd_threshold == Hundredths(2000),
            r.profit_milestone == 1_000_000,
            r.email_recipients@.len() == 0,
            r.slack_webhook is None,
            r.sms_recipients@.len() == 0,
            r.alert_cooldown_secs == 300,
    {
        AlertConfig {
            max_dd_threshold: Hundredths(2000),
            profit_milestone: 1_000_000,
            email_recipients: Vec::new(),
            slack_webhook: None,
            sms_recipients: Vec::new(),
            alert_cooldown_secs: 300,
        }
    }
}

/// Number of alerts of `level` in `h`.
pub open spec fn count_level(h: Seq<AlertView>, level: AlertLevel) -> nat
    decreases h.len(),
{
    if h.len() == 0 {
        0
    } else {
        count_level(h.drop_last(), level) + (if h.last().level == level { 1nat } else { 0nat })
    }
}

/// The cooldown after the alert at `last` still runs at `now`.
pub open spec fn in_cooldown(last: Option<i64>, now: i64, cooldown_secs: u64) -> bool {
    match last {
        Some(t) => now - t < wrap_i64(cooldown_secs),
        None => false,
    }
}

/// `"ALRT_<n>"`.
pub open spec fn alert_id_spec(n: usize) -> Seq<char> {
    "ALRT_"@ + decimal_u64(n as u64)
}

/// An amount in hundredths written with two decimals (`-0.50`, `12.34`).
pub open spec fn two_decimals(v: i64) -> Seq<char> {
    let a = if v < 0 { -v } else { v as int };
    let whole = decimal_u64((a / 100) as u64);
    let frac = (a % 100) as u64;
    let frac_text = if frac < 10 { "0"@ + decimal_u64(frac) } else { decimal_u64(frac) };
    (if v < 0 { "-"@ } else { ""@ }) + whole + "."@ + frac_text
}

/// Message of a drawdown alert.
pub open spec fn dd_message(dd: i64, limit: i64) -> Seq<char> {
    "DD Eşiği Aşıldı: "@ + two_decimals(dd) + "% (Limit: "@ + two_decimals(limit) + "%)"@
}

/// Message of a profit milestone alert.
pub open spec fn milestone_message(threshold: i64) -> Seq<char> {
    "Milestone Ulaşıldı: $"@ + two_decimals(threshold)
}

/// An amount in hundredths written with two decimals.
pub fn format_two_decimals(v: i64) -> (r: String)
    ensures
        r@ == two_decimals(v),
{
    let a: u64 = if v < 0 {
        (-(v as i128)) as u64
    } else {
        v as u64
    };
    let whole = u64_to_text(a / 100);
    let frac = a % 100;
    let mut out = if v < 0 {
        String::from_str("-")
    } else {
        String::from_str("")
    };
    out.append(whole.as_str());
    out.append(".");
    if frac < 10 {
        out.append("0");
    }
    let frac_text = u64_to_text(frac);
    out.append(frac_text.as_str());
    proof {
        reveal_strlit("");
        reveal_strlit("0");
        let av = if v < 0 { -v } else { v as int };
        assert(a == av);
        if frac < 10 {
            assert(out@ =~= two_decimals(v));
        } else {
            assert(out@ =~= two_decimals(v));
        }
    }
    out
}

/// Alert manager: alerts go out at most once per cooldown, and the last
/// `ALERT_HISTORY_CAP` alerts are kept.
pub struct AlertSystem {
    alerts_history: VecDeque<Alert>,
    config: AlertConfig,
    last_alert_time: Option<i64>,
    alert_counter: usize,
    is_active: bool,
}

/// Title of a drawdown alert.
pub open spec fn dd_title() -> Seq<char> {
    "🚨 Max Drawdown İhlali"@
}

/// Title of a profit milestone alert.
pub open spec fn milestone_title() -> Seq<char> {
    "💰 Hedef Kâr Milestone"@
}

/// Title of a system error alert.
pub open spec fn system_error_title() -> Seq<char> {
    "⚠️ Kritik Sistem Hatası"@
}

/// History `h` after alert `a` is appended, the oldest dropped beyond the cap.
pub open spec fn pushed_history(h: Seq<AlertView>, a: AlertView) -> Seq<AlertView> {
    if h.len() + 1 > ALERT_HISTORY_CAP {
        h.push(a).drop_first()
    } else {
        h.push(a)
    }
}

impl AlertSystem {
    pub closed spec fn history(&self) -> Seq<AlertView> {
        self.alerts_history@.map_values(|a: Alert| a@)
    }

    pub closed spec fn active(&self) -> bool {
        self.is_active
    }

    pub closed spec fn counter(&self) -> usize {
        self.alert_counter
    }

    pub closed spec fn last_time(&self) -> Option<i64> {
        self.last_alert_time
    }

    pub closed spec fn cooldown(&self) -> u64 {
        self.config.alert_cooldown_secs
    }

    pub closed spec fn dd_threshold(&self) -> Hundredths {
        self.config.max_dd_threshold
    }

    pub closed spec fn profit_milestone(&self) -> i64 {
        self.config.profit_milestone
    }

    /// `self` raised alert `a` at `now` and became `t`: the counter advanced, the
    /// alert has id `ALRT_<counter>`, the given level, title, message and channels,
    /// is sent at `now`, the last-alert time is `now` (the cooldown starts), and the
    /// history holds it last; activity and configuration are unchanged.
    pub open spec fn records(
        self,
        t: AlertSystem,
        a: Alert,
        level: AlertLevel,
        title: Seq<char>,
        message: Seq<char>,
        channels: Seq<AlertChannel>,
        now: i64,
    ) -> bool {
        &&& a.id@ == alert_id_spec((self.counter() + 1) as usize)
        &&& a.timestamp == now
        &&& a.level == level
        &&& a.title@ == title
        &&& a.message@ == message
        &&& a.channels@ == channels
        &&& a.sent
        &&& a.sent_at == Some(now)
        &&& t.counter() == self.counter() + 1
        &&& t.last_time() == Some(now)
        &&& t.history() == pushed_history(self.history(), a@)
        &&& t.active() == self.active()
        &&& t.cooldown() == self.cooldown()
        &&& t.dd_threshold() == self.dd_threshold()
        &&& t.profit_milestone() == self.profit_milestone()
    }

    /// The history stays within its cap.
    pub closed spec fn wf(&self) -> bool {
        self.alerts_history@.len() <= ALERT_HISTORY_CAP
    }

    /// An inactive manager with an empty history.
    pub fn new(config: AlertConfig) -> (r: Self)
        ensures
            r.wf(),
            r.history().len() == 0,
            !r.active(),
            r.counter() == 0,
            r.last_time() is None,
            r.cooldown() == config.alert_cooldown_secs,
            r.dd_threshold() == config.max_dd_threshold,
            r.profit_milestone() == config.profit_milestone,
    {
        AlertSystem {
            alerts_history: VecDeque::new(),
            config,
            last_alert_time: None,
            alert_counter: 0,
            is_active: false,
        }
    }

    /// Activates the manager; an error when it is already active.
    pub fn start(&mut self) -> (r: Result<(), String>)
        ensures
            r is Ok <==> !old(self).active(),
            final(self).active(),
            final(self).history() == old(self).history(),
            final(self).counter() == old(self).counter(),
            final(self).last_time() == old(self).last_time(),
            final(self).cooldown() == old(self).cooldown(),
            final(self).wf() == old(self).wf(),
    {
        if self.is_active {
            return Err(String::from_str("Alert sistemi zaten aktif"));
        }
        self.is_active = true;
        Ok(())
    }

    /// Deactivates the manager; an error when it is not active.
    pub fn stop(&mut self) -> (r: Result<(), String>)
        ensures
            r is Ok <==> old(self).active(),
            !final(self).active(),
            final(self).history() == old(self).history(),
            final(self).counter() == old(self).counter(),
            final(self).last_time() == old(self).last_time(),
            final(self).cooldown() == old(self).cooldown(),
            final(self).wf() == old(self).wf(),
    {
        if !self.is_active {
            return Err(String::from_str("Alert sistemi aktif değil"));
        }
        self.is_active = false;
        Ok(())
    }

    /// Creates an alert at `now` unless the cooldown since the last alert still
    /// runs (then `None` and nothing changes): the counter advances, the alert gets
    /// id `ALRT_<counter>`, is marked sent at `now`, and is appended to the history
    /// (the oldest dropped beyond the cap).
    fn create_alert(
        &mut self,
        level: AlertLevel,
        title: String,
        message: String,
        channels: Vec<AlertChannel>,
        now: i64,
    ) -> (r: Result<Option<Alert>, String>)
        requires
            old(self).wf(),
            old(self).counter() < usize::MAX,
        ensures
            final(self).wf(),
            final(self).active() == old(self).active(),
            final(self).cooldown() == old(self).cooldown(),
            final(self).dd_threshold() == old(self).dd_threshold(),
            final(self).profit_milestone() == old(self).profit_milestone(),
            in_cooldown(old(self).last_time(), now, old(self).cooldown()) ==> r == Ok::<Option<Alert>, String>(None)
                && *final(self) == *old(self),
            !in_cooldown(old(self).last_time(), now, old(self).cooldown()) ==> (r matches Ok(Some(a)) && old(
                self,
            ).records(*final(self), a, level, title@, message@, channels@, now)),
    {
        match self.last_alert_time {
            Some(last) => {
                let cd: i128 = if self.config.alert_cooldown_secs <= i64::MAX as u64 {
                    self.config.alert_cooldown_secs as i128
                } else {
                    self.config.alert_cooldown_secs as i128 - 0x1_0000_0000_0000_0000i128
                };
                if (now as i128) - (last as i128) < cd {
                    return Ok(None);
                }
            },
            None => {},
        }
        self.alert_counter = self.alert_counter + 1;
        let num = u64_to_text(self.alert_counter as u64);
        let mut id = String::from_str("ALRT_");
        id.append(num.as_str());
        let alert = Alert {
            id,
            timestamp: now,
            level,
            title,
            message,
            channels,
            sent: true,
            sent_at: Some(now),
        };
        self.last_alert_time = Some(now);
        let stored = alert.clone();
        let ghost h0 = self.history();
        self.alerts_history.push_back(stored);
        assert(self.history() =~= h0.push(alert@));
        if self.alerts_history.len() > ALERT_HISTORY_CAP {
            self.alerts_history.pop_front();
            assert(self.history() =~= h0.push(alert@).drop_first());
        }
        Ok(Some(alert))
    }

    /// A critical drawdown alert (to e-mail and Slack) when `current_dd` (a
    /// percentage in hundredths) exceeds the threshold; an error when inactive.
    pub fn trigger_max_dd_alert_at(&mut self, current_dd: i64, now: i64) -> (r: Result<Option<Alert>, String>)
        requires
            old(self).wf(),
            old(self).counter() < usize::MAX,
        ensures
            final(self).wf(),
            !old(self).active() ==> r is Err && *final(self) == *old(self),
            old(self).active() && current_dd <= old(self).dd_threshold().0 ==> r == Ok::<Option<Alert>, String>(None) && *final(self) == *old(self),
            old(self).active() && current_dd > old(self).dd_threshold().0 && !in_cooldown(
                old(self).last_time(),
                now,
                old(self).cooldown(),
            ) ==> (r matches Ok(Some(a)) && old(self).records(
                *final(self),
                a,
                AlertLevel::Critical,
                dd_title(),
                dd_message(current_dd, old(self).dd_threshold().0 as i64),
                seq![AlertChannel::Email, AlertChannel::Slack],
                now,
            )),
            old(self).active() && current_dd > old(self).dd_threshold().0 && in_cooldown(
                old(self).last_time(),
                now,
                old(self).cooldown(),
            ) ==> r == Ok::<Option<Alert>, String>(None) && *final(self) == *old(self),
    {
        if !self.is_active {
            return Err(String::from_str("Sistem inaktif"));
        }
        let limit = self.config.max_dd_threshold.0 as i64;
        if current_dd > limit {
            let mut message = String::from_str("DD Eşiği Aşıldı: ");
            let dd_text = format_two_decimals(current_dd);
            message.append(dd_text.as_str());
            message.append("% (Limit: ");
            let limit_text = format_two_decimals(limit);
            message.append(limit_text.as_str());
            message.append("%)");
            let channels = vec![AlertChannel::Email, AlertChannel::Slack];
            assert(channels@ =~= seq![AlertChannel::Email, AlertChannel::Slack]);
            self.create_alert(
                AlertLevel::Critical,
                String::from_str("🚨 Max Drawdown İhlali"),
                message,
                channels,
                now,
            )
        } else {
            Ok(None)
        }
    }

    /// An informational alert (to Slack) when `profit` (cents) reaches the milestone
    /// (`milestone`, else the configured one); an error when inactive.
    pub fn trigger_profit_milestone_alert_at(&mut self, profit: i64, milestone: Option<i64>, now: i64) -> (r: Result<
        Option<Alert>,
        String,
    >)
        requires
            old(self).wf(),
            old(self).counter() < usize::MAX,
        ensures
            final(self).wf(),
            !old(self).active() ==> r is Err && *final(self) == *old(self),
            ({
                let threshold = match milestone {
                    Some(m) => m,
                    None => old(self).profit_milestone(),
                };
                &&& old(self).active() && profit < threshold ==> r == Ok::<Option<Alert>, String>(None) && *final(self) == *old(self)
                &&& old(self).active() && profit >= threshold && !in_cooldown(old(self).last_time(), now, old(self).cooldown())
                    ==> (r matches Ok(Some(a)) && old(self).records(
                    *final(self),
                    a,
                    AlertLevel::Info,
                    milestone_title(),
                    milestone_message(threshold),
                    seq![AlertChannel::Slack],
                    now,
                ))
                &&& old(self).active() && profit >= threshold && in_cooldown(old(self).last_time(), now, old(self).cooldown())
                    ==> r == Ok::<Option<Alert>, String>(None) && *final(self) == *old(self)
            }),
    {
        if !self.is_active {
            return Err(String::from_str("Sistem inaktif"));
        }
        let threshold = match milestone {
            Some(m) => m,
            None => self.config.profit_milestone,
        };
        if profit >= threshold {
            let mut message = String::from_str("Milestone Ulaşıldı: $");
            let t = format_two_decimals(threshold);
            message.append(t.as_str());
            let channels = vec![AlertChannel::Slack];
            assert(channels@ =~= seq![AlertChannel::Slack]);
            self.create_alert(AlertLevel::Info, String::from_str("💰 Hedef Kâr Milestone"), message, channels, now)
        } else {
            Ok(None)
        }
    }

    /// An error alert (to the log and e-mail) carrying `err`; an error when
    /// inactive.
    pub fn trigger_system_error_alert_at(&mut self, err: &str, now: i64) -> (r: Result<Option<Alert>, String>)
        requires
            old(self).wf(),
            old(self).counter() < usize::MAX,
        ensures
            final(self).wf(),
            !old(self).active() ==> r is Err && *final(self) == *old(self),
            old(self).active() && !in_cooldown(old(self).last_time(), now, old(self).cooldown()) ==> (r matches Ok(
                Some(a),
            ) && old(self).records(*final(self), a, AlertLevel::Error, system_error_title(), err@, seq![AlertChannel::Log, AlertChannel::Email], now)),
            old(self).active() && in_cooldown(old(self).last_time(), now, old(self).cooldown()) ==> r == Ok::<Option<Alert>, String>(None)
                && *final(self) == *old(self),
    {
        if !self.is_active {
            return Err(String::from_str("Sistem inaktif"));
        }
        let channels = vec![AlertChannel::Log, AlertChannel::Email];
        assert(channels@ =~= seq![AlertChannel::Log, AlertChannel::Email]);
        self.create_alert(AlertLevel::Error, String::from_str("⚠️ Kritik Sistem Hatası"), String::from_str(err), channels, now)
    }

    /// A custom alert; an error when inactive.
    pub fn create_custom_alert_at(
        &mut self,
        level: AlertLevel,
        title: String,
        msg: String,
        channels: Vec<AlertChannel>,
        now: i64,
    ) -> (r: Result<Option<Alert>, String>)
        requires
            old(self).wf(),
            old(self).counter() < usize::MAX,
        ensures
            final(self).wf(),
            !old(self).active() ==> r is Err && *final(self) == *old(self),
            old(self).active() && !in_cooldown(old(self).last_time(), now, old(self).cooldown()) ==> (r matches Ok(
                Some(a),
            ) && old(self).records(*final(self), a, level, title@, msg@, channels@, now)),
            old(self).active() && in_cooldown(old(self).last_time(), now, old(self).cooldown()) ==> r == Ok::<Option<Alert>, String>(None)
                && *final(self) == *old(self),
    {
        if !self.is_active {
            return Err(String::from_str("Sistem inaktif"));
        }
        self.create_alert(level, title, msg, channels, now)
    }

    /// `trigger_max_dd_alert_at` at the current time.
    pub fn trigger_max_dd_alert(&mut self, current_dd: i64) -> (r: Result<Option<Alert>, String>)
        requires
            old(self).wf(),
            old(self).counter() < usize::MAX,
        ensures
            final(self).wf(),
            !old(self).active() ==> r is Err && *final(self) == *old(self),
            old(self).active() ==> r is Ok,
            old(self).active() && current_dd <= old(self).dd_threshold().0 ==> r == Ok::<Option<Alert>, String>(None) && *final(self) == *old(self),
            old(self).active() && current_dd > old(self).dd_threshold().0 && old(self).last_time() is None ==> (r matches Ok(
                Some(_),
            )),
            r matches Ok(Some(a)) ==> a.timestamp >= 0 && old(self).records(
                *final(self),
                a,
                AlertLevel::Critical,
                dd_title(),
                dd_message(current_dd, old(self).dd_threshold().0 as i64),
                seq![AlertChannel::Email, AlertChannel::Slack],
                a.timestamp,
            ),
            r == Ok::<Option<Alert>, String>(None) ==> *final(self) == *old(self),
    {
        let now = now_epoch_secs();
        self.trigger_max_dd_alert_at(current_dd, now as i64)
    }

    /// `trigger_profit_milestone_alert_at` at the current time.
    pub fn trigger_profit_milestone_alert(&mut self, profit: i64, milestone: Option<i64>) -> (r: Result<
        Option<Alert>,
        String,
    >)
        requires
            old(self).wf(),
            old(self).counter() < usize::MAX,
        ensures
            final(self).wf(),
            !old(self).active() ==> r is Err && *final(self) == *old(self),
            old(self).active() ==> r is Ok,
            ({
                let threshold = match milestone {
                    Some(m) => m,
                    None => old(self).profit_milestone(),
                };
                &&& old(self).active() && profit < threshold ==> r == Ok::<Option<Alert>, String>(None) && *final(self) == *old(self)
                &&& old(self).active() && profit >= threshold && old(self).last_time() is None ==> (r matches Ok(Some(_)))
                &&& (r matches Ok(Some(a)) ==> a.timestamp >= 0 && old(self).records(
                    *final(self),
                    a,
                    AlertLevel::Info,
                    milestone_title(),
                    milestone_message(threshold),
                    seq![AlertChannel::Slack],
                    a.timestamp,
                ))
            }),
            r == Ok::<Option<Alert>, String>(None) ==> *final(self) == *old(self),
    {
        let now = now_epoch_secs();
        self.trigger_profit_milestone_alert_at(profit, milestone, now as i64)
    }

    /// `trigger_system_error_alert_at` at the current time.
    pub fn trigger_system_error_alert(&mut self, err: &str) -> (r: Result<Option<Alert>, String>)
        requires
            old(self).wf(),
            old(self).counter() < usize::MAX,
        ensures
            final(self).wf(),
            !old(self).active() ==> r is Err && *final(self) == *old(self),
            old(self).active() ==> r is Ok,
            old(self).active() && old(self).last_time() is None ==> r matches Ok(Some(_)),
            r matches Ok(Some(a)) ==> a.timestamp >= 0 && old(self).records(
                *final(self),
                a,
                AlertLevel::Error,
                system_error_title(),
                err@,
                seq![AlertChannel::Log, AlertChannel::Email],
                a.timestamp,
            ),
            r == Ok::<Option<Alert>, String>(None) ==> *final(self) == *old(self),
    {
        let now = now_epoch_secs();
        self.trigger_system_error_alert_at(err, now as i64)
    }

    /// `create_custom_alert_at` at the current time.
    pub fn create_custom_alert(&mut self, level: AlertLevel, title: String, msg: String, channels: Vec<AlertChannel>) -> (r: Result<
        Option<Alert>,
        String,
    >)
        requires
            old(self).wf(),
            old(self).counter() < usize::MAX,
        ensures
            final(self).wf(),
            !old(self).active() ==> r is Err && *final(self) == *old(self),
            old(self).active() ==> r is Ok,
            old(self).active() && old(self).last_time() is None ==> r matches Ok(Some(_)),
            r matches Ok(Some(a)) ==> a.timestamp >= 0 && old(self).records(
                *final(self),
                a,
                level,
                title@,
                msg@,
                channels@,
                a.timestamp,
            ),
            r == Ok::<Option<Alert>, String>(None) ==> *final(self) == *old(self),
    {
        let now = now_epoch_secs();
        self.create_custom_alert_at(level, title, msg, channels, now as i64)
    }

    /// Number of alerts in the history per level: (info, warning, error, critical).
    pub fn get_stats(&self) -> (r: (usize, usize, usize, usize))
        requires
            self.wf(),
        ensures
            r.0 == count_level(self.history(), AlertLevel::Info),
            r.1 == count_level(self.history(), AlertLevel::Warning),
            r.2 == count_level(self.history(), AlertLevel::Error),
            r.3 == count_level(self.history(), AlertLevel::Critical),
    {
        let ghost h = self.history();
        let (mut i, mut w, mut e, mut c): (usize, usize, usize, usize) = (0, 0, 0, 0);
        let mut k: usize = 0;
        while k < self.alerts_history.len()
            invariant
                h == self.history(),
                h.len() == self.alerts_history@.len(),
                h.len() <= ALERT_HISTORY_CAP,
                0 <= k <= h.len(),
                i == count_level(h.take(k as int), AlertLevel::Info),
                w == count_level(h.take(k as int), AlertLevel::Warning),
                e == count_level(h.take(k as int), AlertLevel::Error),
                c == count_level(h.take(k as int), AlertLevel::Critical),
                i + w + e + c == k,
            decreases h.len() - k,
        {
            proof {
                assert(h.take(k as int + 1).drop_last() =~= h.take(k as int));
                assert(h.take(k as int + 1).last() == h[k as int]);
                assert(h[k as int] == self.alerts_history@[k as int]@);
            }
            match self.alerts_history[k].level {
                AlertLevel::Info => i += 1,
                AlertLevel::Warning => w += 1,
                AlertLevel::Error => e += 1,
                AlertLevel::Critical => c += 1,
            }
            k += 1;
        }
        proof {
            assert(h.take(h.len() as int) =~= h);
        }
        (i, w, e, c)
    }
}

/// Number of error and critical alerts above which the history counts as flooded.
pub const ALERT_FLOOD_LIMIT: usize = 50;

/// `"Son 1000 olayda <n> kritik uyarı mevcut!"`.
pub open spec fn critical_note_spec(n: nat) -> Seq<char> {
    "Son 1000 olayda "@ + decimal_u64(n as u64) + " kritik uyarı mevcut!"@
}

impl AlertSystem {
    /// Critical while the history holds a critical alert (the note tells how many),
    /// healthy otherwise.
    pub fn check_health(&self) -> (r: HealthStatus)
        requires
            self.wf(),
        ensures
            count_level(self.history(), AlertLevel::Critical) > 0 ==> r@ == HealthView::Critical(
                critical_note_spec(count_level(self.history(), AlertLevel::Critical)),
            ),
            count_level(self.history(), AlertLevel::Critical) == 0 ==> r@ == HealthView::Healthy,
    {
        let (_, _, _, critical) = self.get_stats();
        if critical > 0 {
            let n = u64_to_text(critical as u64);
            let mut note = String::from_str("Son 1000 olayda ");
            note.append(n.as_str());
            note.append(" kritik uyarı mevcut!");
            HealthStatus::Critical(note)
        } else {
            HealthStatus::Healthy
        }
    }

    /// An anomaly when the history holds more than `ALERT_FLOOD_LIMIT` error and
    /// critical alerts together (log flooding).
    pub fn detect_anomaly(&self) -> (r: Option<String>)
        requires
            self.wf(),
        ensures
            count_level(self.history(), AlertLevel::Error) + count_level(self.history(), AlertLevel::Critical)
                > ALERT_FLOOD_LIMIT ==> (r matches Some(m) && m@ == "Aşırı hata yoğunluğu (Log Flooding)"@),
            count_level(self.history(), AlertLevel::Error) + count_level(self.history(), AlertLevel::Critical)
                <= ALERT_FLOOD_LIMIT ==> r is None,
    {
        let (_, _, error, critical) = self.get_stats();
        proof {
            law_stats_cover_history(self.history());
        }
        if critical + error > ALERT_FLOOD_LIMIT {
            Some(String::from_str("Aşırı hata yoğunluğu (Log Flooding)"))
        } else {
            None
        }
    }
}

/// The four level counts add up to the number of alerts.
pub proof fn law_stats_cover_history(h: Seq<AlertView>)
    ensures
        count_level(h, AlertLevel::Info) + count_level(h, AlertLevel::Warning) + count_level(h, AlertLevel::Error)
            + count_level(h, AlertLevel::Critical) == h.len(),
    decreases h.len(),
{
    if h.len() > 0 {
        law_stats_cover_history(h.drop_last());
    }
}

/// Cooldown: right after an alert at `t`, every moment before `t + cooldown` (for a
/// cooldown that reads as a positive `i64`) is inside the cooldown.
pub proof fn law_cooldown_blocks(t: i64, now: i64, cooldown_secs: u64)
    requires
        cooldown_secs <= i64::MAX,
        now < t + cooldown_secs,
    ensures
        in_cooldown(Some(t), now, cooldown_secs),
{
}

} // verus!
