use vstd::prelude::*;
use crate::robot::portfolio_manager::{Hundredths, TrailingStopConfig, ScaleInConfig, ScaleOutConfig};
use crate::robot::security::{UserRole, RateLimitRule};

verus! {

/// Preset dynamic position-management profiles.
#[derive(Debug, Clone, Copy, PartialEq, Eq, Structural)]
pub enum PositionManagementProfile {
    /// Tight trailing stop, minimal scaling.
    Conservative,
    /// Medium aggressiveness.
    Balanced,
    /// Loose trailing stop, maximal scaling.
    Aggressive,
    /// Fast in/out, tight profit targets.
    Scalper,
    /// Long holding, wide profit targets.
    SwingTrading,
}

/// Abstract view of a scale-out configuration.
pub struct ScaleOutView {
    pub enabled: bool,
    pub max_scaleout_count: u32,
    pub scaleout_pct: Hundredths,
    pub profit_targets: Seq<Hundredths>,
}

impl View for ScaleOutConfig {
    type V = ScaleOutView;

    open spec fn view(&self) -> ScaleOutView {
        ScaleOutView {
            enabled: self.enabled,
            max_scaleout_count: self.max_scaleout_count,
            scaleout_pct: self.scaleout_pct,
            profit_targets: self.profit_targets@,
        }
    }
}

pub open spec fn h(v: u32) -> Hundredths {
    Hundredths(v)
}

impl PositionManagementProfile {
    /// Trailing-stop preset of each profile.
    pub open spec fn trailing_spec(self) -> TrailingStopConfig {
        match self {
            PositionManagementProfile::Conservative => TrailingStopConfig { trailing_pct: h(150), min_movement_bps: 25, enabled: true },
            PositionManagementProfile::Balanced => TrailingStopConfig { trailing_pct: h(250), min_movement_bps: 50, enabled: true },
            PositionManagementProfile::Aggressive => TrailingStopConfig { trailing_pct: h(400), min_movement_bps: 100, enabled: true },
            PositionManagementProfile::Scalper => TrailingStopConfig { trailing_pct: h(50), min_movement_bps: 10, enabled: true },
            PositionManagementProfile::SwingTrading => TrailingStopConfig { trailing_pct: h(500), min_movement_bps: 200, enabled: true },
        }
    }

    /// Scale-in preset of each profile.
    pub open spec fn scale_in_spec(self) -> ScaleInConfig {
        match self {
            PositionManagementProfile::Conservative => ScaleInConfig {
                enabled: false,
                max_scalein_count: 1,
                scale_in_pct: h(2500),
                trigger_proximity_pct: h(100),
            },
            PositionManagementProfile::Balanced => ScaleInConfig {
                enabled: true,
                max_scalein_count: 2,
                scale_in_pct: h(5000),
                trigger_proximity_pct: h(50),
            },
            PositionManagementProfile::Aggressive => ScaleInConfig {
                enabled: true,
                max_scalein_count: 4,
                scale_in_pct: h(7500),
                trigger_proximity_pct: h(30),
            },
            PositionManagementProfile::Scalper => ScaleInConfig {
                enabled: false,
                max_scalein_count: 0,
                scale_in_pct: h(0),
                trigger_proximity_pct: h(0),
            },
            PositionManagementProfile::SwingTrading => ScaleInConfig {
                enabled: true,
                max_scalein_count: 3,
                scale_in_pct: h(6000),
                trigger_proximity_pct: h(200),
            },
        }
    }

    /// Scale-out preset of each profile.
    pub open spec fn scale_out_spec(self) -> ScaleOutView {
        match self {
            PositionManagementProfile::Conservative => ScaleOutView {
                enabled: true,
                max_scaleout_count: 2,
                scaleout_pct: h(5000),
                profit_targets: seq![h(100), h(200)],
            },
            PositionManagementProfile::Balanced => ScaleOutView {
                enabled: true,
                max_scaleout_count: 3,
                scaleout_pct: h(3333),
                profit_targets: seq![h(200), h(500), h(1000)],
            },
            PositionManagementProfile::Aggressive => ScaleOutView {
                enabled: true,
                max_scaleout_count: 4,
                scaleout_pct: h(2500),
                profit_targets: seq![h(300), h(700), h(1500), h(3000)],
            },
            PositionManagementProfile::Scalper => ScaleOutView {
                enabled: true,
                max_scaleout_count: 2,
                scaleout_pct: h(5000),
                profit_targets: seq![h(50), h(100)],
            },
            PositionManagementProfile::SwingTrading => ScaleOutView {
                enabled: true,
                max_scaleout_count: 4,
                scaleout_pct: h(2500),
                profit_targets: seq![h(500), h(1000), h(2000), h(4000)],
            },
        }
    }

    /// Trailing-stop configuration of the profile.
    pub fn trailing_stop_config(&self) -> (r: TrailingStopConfig)
        ensures
            r == self.trailing_spec(),
    {
        match self {
            PositionManagementProfile::Conservative => TrailingStopConfig {
                trailing_pct: Hundredths(150),
                min_movement_bps: 25,
                enabled: true,
            },
            PositionManagementProfile::Balanced => TrailingStopConfig {
                trailing_pct: Hundredths(250),
                min_movement_bps: 50,
                enabled: true,
            },
            PositionManagementProfile::Aggressive => TrailingStopConfig {
                trailing_pct: Hundredths(400),
                min_movement_bps: 100,
                enabled: true,
            },
            PositionManagementProfile::Scalper => TrailingStopConfig {
                trailing_pct: Hundredths(50),
                min_movement_bps: 10,
                enabled: true,
            },
            PositionManagementProfile::SwingTrading => TrailingStopConfig {
                trailing_pct: Hundredths(500),
                min_movement_bps: 200,
                enabled: true,
            },
        }
    }

    /// Scale-in configuration of the profile.
    pub fn scale_in_config(&self) -> (r: ScaleInConfig)
        ensures
            r == self.scale_in_spec(),
    {
        match self {
            PositionManagementProfile::Conservative => ScaleInConfig {
                enabled: false,
                max_scalein_count: 1,
                scale_in_pct: Hundredths(2500),
                trigger_proximity_pct: Hundredths(100),
            },
            PositionManagementProfile::Balanced => ScaleInConfig {
                enabled: true,
                max_scalein_count: 2,
                scale_in_pct: Hundredths(5000),
                trigger_proximity_pct: Hundredths(50),
            },
            PositionManagementProfile::Aggressive => ScaleInConfig {
                enabled: true,
                max_scalein_count: 4,
                scale_in_pct: Hundredths(7500),
                trigger_proximity_pct: Hundredths(30),
            },
            PositionManagementProfile::Scalper => ScaleInConfig {
                enabled: false,
                max_scalein_count: 0,
                scale_in_pct: Hundredths(0),
                trigger_proximity_pct: Hundredths(0),
            },
            PositionManagementProfile::SwingTrading => ScaleInConfig {
                enabled: true,
                max_scalein_count: 3,
                scale_in_pct: Hundredths(6000),
                trigger_proximity_pct: Hundredths(200),
            },
        }
    }

    /// Scale-out configuration of the profile.
    pub fn scale_out_config(&self) -> (r: ScaleOutConfig)
        ensures
            r@ == self.scale_out_spec(),
    {
        let r = match self {
            PositionManagementProfile::Conservative => ScaleOutConfig {
                enabled: true,
                max_scaleout_count: 2,
                scaleout_pct: Hundredths(5000),
                profit_targets: vec![Hundredths(100), Hundredths(200)],
            },
            PositionManagementProfile::Balanced => ScaleOutConfig {
                enabled: true,
                max_scaleout_count: 3,
                scaleout_pct: Hundredths(3333),
                profit_targets: vec![Hundredths(200), Hundredths(500), Hundredths(1000)],
            },
            PositionManagementProfile::Aggressive => ScaleOutConfig {
                enabled: true,
                max_scaleout_count: 4,
                scaleout_pct: Hundredths(2500),
                profit_targets: vec![Hundredths(300), Hundredths(700), Hundredths(1500), Hundredths(3000)],
            },
            PositionManagementProfile::Scalper => ScaleOutConfig {
                enabled: true,
                max_scaleout_count: 2,
                scaleout_pct: Hundredths(5000),
                profit_targets: vec![Hundredths(50), Hundredths(100)],
            },
            PositionManagementProfile::SwingTrading => ScaleOutConfig {
                enabled: true,
                max_scaleout_count: 4,
                scaleout_pct: Hundredths(2500),
                profit_targets: vec![Hundredths(500), Hundredths(1000), Hundredths(2000), Hundredths(4000)],
            },
        };
        assert(r@.profit_targets =~= self.scale_out_spec().profit_targets);
        r
    }
}

/// Preset security and rate-limit profiles.
#[derive(Debug, Clone, Copy, PartialEq, Eq, Structural)]
pub enum SecurityProfile {
    /// Test environment: practically unlimited.
    Development,
    /// Staging: medium limits.
    Staging,
    /// Production: strict limits.
    Production,
    /// Enterprise: strictest limits and full audit.
    Enterprise,
}

/// Abstract view of a rate-limit rule.
pub struct RateLimitView {
    pub limit_type: Seq<char>,
    pub max_per_second: u32,
    pub applies_to: Seq<char>,
}

impl View for RateLimitRule {
    type V = RateLimitView;

    open spec fn view(&self) -> RateLimitView {
        RateLimitView { limit_type: self.limit_type@, max_per_second: self.max_per_second, applies_to: self.applies_to@ }
    }
}

impl SecurityProfile {
    /// Strictness rank: Development 0 .. Enterprise 3.
    pub open spec fn strictness(self) -> int {
        match self {
            SecurityProfile::Development => 0,
            SecurityProfile::Staging => 1,
            SecurityProfile::Production => 2,
            SecurityProfile::Enterprise => 3,
        }
    }

    pub open spec fn trade_limit_spec(self) -> u32 {
        match self {
            SecurityProfile::Development => 100,
            SecurityProfile::Staging => 1,
            SecurityProfile::Production => 0,
            SecurityProfile::Enterprise => 0,
        }
    }

    pub open spec fn api_limit_spec(self) -> u32 {
        match self {
            SecurityProfile::Development => 100,
            SecurityProfile::Staging => 20,
            SecurityProfile::Production => 10,
            SecurityProfile::Enterprise => 5,
        }
    }

    pub open spec fn audit_interval_spec(self) -> u32 {
        match self {
            SecurityProfile::Development => 0,
            SecurityProfile::Staging => 60,
            SecurityProfile::Production => 30,
            SecurityProfile::Enterprise => 15,
        }
    }

    pub open spec fn emergency_roles_spec(self) -> Seq<UserRole> {
        match self {
            SecurityProfile::Development => seq![UserRole::Admin, UserRole::Trader, UserRole::Monitor],
            SecurityProfile::Staging => seq![UserRole::Admin, UserRole::Trader],
            SecurityProfile::Production => seq![UserRole::Admin],
            SecurityProfile::Enterprise => seq![UserRole::Admin],
        }
    }

    /// Trade rate limit of the profile.
    pub fn trade_rate_limit(&self) -> (r: RateLimitRule)
        ensures
            r@.limit_type == "trades_per_minute"@,
            r@.max_per_second == self.trade_limit_spec(),
            r@.applies_to == "all"@,
    {
        let max_per_second: u32 = match self {
            SecurityProfile::Development => 100,
            SecurityProfile::Staging => 1,
            SecurityProfile::Production => 0,
            SecurityProfile::Enterprise => 0,
        };
        RateLimitRule {
            limit_type: "trades_per_minute".to_string(),
            max_per_second,
            applies_to: "all".to_string(),
        }
    }

    /// API-call rate limit of the profile.
    pub fn api_rate_limit(&self) -> (r: RateLimitRule)
        ensures
            r@.limit_type == "api_calls_per_second"@,
            r@.max_per_second == self.api_limit_spec(),
            r@.applies_to == "all"@,
    {
        let max_per_second: u32 = match self {
            SecurityProfile::Development => 100,
            SecurityProfile::Staging => 20,
            SecurityProfile::Production => 10,
            SecurityProfile::Enterprise => 5,
        };
        RateLimitRule {
            limit_type: "api_calls_per_second".to_string(),
            max_per_second,
            applies_to: "all".to_string(),
        }
    }

    /// Audit-log export interval in minutes (0 = disabled).
    pub fn audit_export_interval_minutes(&self) -> (r: u32)
        ensures
            r == self.audit_interval_spec(),
    {
        match self {
            SecurityProfile::Development => 0,
            SecurityProfile::Staging => 60,
            SecurityProfile::Production => 30,
            SecurityProfile::Enterprise => 15,
        }
    }

    /// Roles allowed to trigger the emergency stop.
    pub fn emergency_stop_roles(&self) -> (r: Vec<UserRole>)
        ensures
            r@ == self.emergency_roles_spec(),
    {
        let r = match self {
            SecurityProfile::Development => vec![UserRole::Admin, UserRole::Trader, UserRole::Monitor],
            SecurityProfile::Staging => vec![UserRole::Admin, UserRole::Trader],
            SecurityProfile::Production => vec![UserRole::Admin],
            SecurityProfile::Enterprise => vec![UserRole::Admin],
        };
        assert(r@ =~= self.emergency_roles_spec());
        r
    }
}

/// A stricter security profile never allows more trades, API calls or emergency-stop
/// roles than a looser one; every role allowed under the stricter one is allowed
/// under the looser one.
pub proof fn law_security_profiles_monotone(loose: SecurityProfile, strict: SecurityProfile)
    requires
        loose.strictness() <= strict.strictness(),
    ensures
        loose.trade_limit_spec() >= strict.trade_limit_spec(),
        loose.api_limit_spec() >= strict.api_limit_spec(),
        loose.emergency_roles_spec().len() >= strict.emergency_roles_spec().len(),
        forall|r: UserRole| strict.emergency_roles_spec().contains(r) ==> loose.emergency_roles_spec().contains(r),
{
    assert forall|r: UserRole| strict.emergency_roles_spec().contains(r) implies loose.emergency_roles_spec().contains(r) by {
        let i = choose|i: int| 0 <= i < strict.emergency_roles_spec().len() && strict.emergency_roles_spec()[i] == r;
        assert(loose.emergency_roles_spec()[i] == r);
    }
}

/// Builder of the three position-management configurations, starting from a
/// profile's presets with optional overrides.
pub struct PositionConfigBuilder {
    profile: PositionManagementProfile,
    trailing_stop: Option<TrailingStopConfig>,
    scale_in: Option<ScaleInConfig>,
    scale_out: Option<ScaleOutConfig>,
}

impl PositionConfigBuilder {
    pub closed spec fn profile_spec(&self) -> PositionManagementProfile {
        self.profile
    }

    pub closed spec fn trailing_override(&self) -> Option<TrailingStopConfig> {
        self.trailing_stop
    }

    pub closed spec fn scale_in_override(&self) -> Option<ScaleInConfig> {
        self.scale_in
    }

    pub closed spec fn scale_out_override(&self) -> Option<ScaleOutView> {
        match self.scale_out {
            Some(c) => Some(c@),
            None => None,
        }
    }

    /// Starts from `profile` with no overrides.
    pub fn new(profile: PositionManagementProfile) -> (r: Self)
        ensures
            r.profile_spec() == profile,
            r.trailing_override() is None,
            r.scale_in_override() is None,
            r.scale_out_override() is None,
    {
        PositionConfigBuilder { profile, trailing_stop: None, scale_in: None, scale_out: None }
    }

    /// Overrides the trailing-stop configuration.
    pub fn with_trailing_stop(self, config: TrailingStopConfig) -> (r: Self)
        ensures
            r.profile_spec() == self.profile_spec(),
            r.trailing_override() == Some(config),
            r.scale_in_override() == self.scale_in_override(),
            r.scale_out_override() == self.scale_out_override(),
    {
        let mut b = self;
        b.trailing_stop = Some(config);
        b
    }

    /// Overrides the scale-in configuration.
    pub fn with_scale_in(self, config: ScaleInConfig) -> (r: Self)
        ensures
            r.profile_spec() == self.profile_spec(),
            r.trailing_override() == self.trailing_override(),
            r.scale_in_override() == Some(config),
            r.scale_out_override() == self.scale_out_override(),
    {
        let mut b = self;
        b.scale_in = Some(config);
        b
    }

    /// Overrides the scale-out configuration.
    pub fn with_scale_out(self, config: ScaleOutConfig) -> (r: Self)
        ensures
            r.profile_spec() == self.profile_spec(),
            r.trailing_override() == self.trailing_override(),
            r.scale_in_override() == self.scale_in_override(),
            r.scale_out_override() == Some(config@),
    {
        let mut b = self;
        b.scale_out = Some(config);
        b
    }

    /// The configurations: each override if given, the profile preset otherwise.
    pub fn build(self) -> (r: (TrailingStopConfig, ScaleInConfig, ScaleOutConfig))
        ensures
            r.0 == (match self.trailing_override() {
                Some(c) => c,
                None => self.profile_spec().trailing_spec(),
            }),
            r.1 == (match self.scale_in_override() {
                Some(c) => c,
                None => self.profile_spec().scale_in_spec(),
            }),
            r.2@ == (match self.scale_out_override() {
                Some(c) => c,
                None => self.profile_spec().scale_out_spec(),
            }),
    {
        let profile = self.profile;
        let ts = match self.trailing_stop {
            Some(c) => c,
            None => profile.trailing_stop_config(),
        };
        let si = match self.scale_in {
            Some(c) => c,
            None => profile.scale_in_config(),
        };
        let so = match self.scale_out {
            Some(c) => c,
            None => profile.scale_out_config(),
        };
        (ts, si, so)
    }
}

/// One override call on a position-configuration builder, with its argument (a
/// scale-out configuration by its view).
pub enum BuilderCall {
    TrailingStop(TrailingStopConfig),
    ScaleIn(ScaleInConfig),
    ScaleOut(ScaleOutView),
}

/// `t` is `b` after the override call `c`, as `with_trailing_stop`,
/// `with_scale_in` and `with_scale_out` state it.
pub open spec fn call_step(b: PositionConfigBuilder, c: BuilderCall, t: PositionConfigBuilder) -> bool {
    &&& t.profile_spec() == b.profile_spec()
    &&& t.trailing_override() == (match c {
        BuilderCall::TrailingStop(x) => Some(x),
        _ => b.trailing_override(),
    })
    &&& t.scale_in_override() == (match c {
        BuilderCall::ScaleIn(x) => Some(x),
        _ => b.scale_in_override(),
    })
    &&& t.scale_out_override() == (match c {
        BuilderCall::ScaleOut(x) => Some(x),
        _ => b.scale_out_override(),
    })
}

/// The argument of the last trailing-stop call, if any.
pub open spec fn last_trailing(calls: Seq<BuilderCall>) -> Option<TrailingStopConfig>
    decreases calls.len(),
{
    if calls.len() == 0 {
        None
    } else if let BuilderCall::TrailingStop(x) = calls.last() {
        Some(x)
    } else {
        last_trailing(calls.drop_last())
    }
}

/// The argument of the last scale-in call, if any.
pub open spec fn last_scale_in(calls: Seq<BuilderCall>) -> Option<ScaleInConfig>
    decreases calls.len(),
{
    if calls.len() == 0 {
        None
    } else if let BuilderCall::ScaleIn(x) = calls.last() {
        Some(x)
    } else {
        last_scale_in(calls.drop_last())
    }
}

/// The argument of the last scale-out call, if any.
pub open spec fn last_scale_out(calls: Seq<BuilderCall>) -> Option<ScaleOutView>
    decreases calls.len(),
{
    if calls.len() == 0 {
        None
    } else if let BuilderCall::ScaleOut(x) = calls.last() {
        Some(x)
    } else {
        last_scale_out(calls.drop_last())
    }
}

/// Builder law: after `new(p)` and any sequence of override calls (`bs[k + 1]` is
/// `bs[k]` after `calls[k]`), the builder holds profile `p` and, per kind, the
/// argument of the last call of that kind (none when there was none), so `build`
/// gives those arguments and `p`'s presets for the kinds never overridden.
pub proof fn law_builder_calls(p: PositionManagementProfile, calls: Seq<BuilderCall>, bs: Seq<PositionConfigBuilder>)
    requires
        bs.len() == calls.len() + 1,
        bs[0].profile_spec() == p,
        bs[0].trailing_override() is None,
        bs[0].scale_in_override() is None,
        bs[0].scale_out_override() is None,
        forall|k: int| 0 <= k < calls.len() ==> call_step(#[trigger] bs[k], calls[k], bs[k + 1]),
    ensures
        bs.last().profile_spec() == p,
        bs.last().trailing_override() == last_trailing(calls),
        bs.last().scale_in_override() == last_scale_in(calls),
        bs.last().scale_out_override() == last_scale_out(calls),
    decreases calls.len(),
{
    if calls.len() > 0 {
        let n = calls.len() as int;
        let cs = calls.drop_last();
        let prefix = bs.drop_last();
        assert forall|k: int| 0 <= k < cs.len() implies call_step(#[trigger] prefix[k], cs[k], prefix[k + 1]) by {
            assert(prefix[k] == bs[k]);
            assert(prefix[k + 1] == bs[k + 1]);
            assert(cs[k] == calls[k]);
        }
        law_builder_calls(p, cs, prefix);
        assert(call_step(bs[n - 1], calls[n - 1], bs[n]));
        assert(prefix.last() == bs[n - 1]);
    }
}

} // verus!
