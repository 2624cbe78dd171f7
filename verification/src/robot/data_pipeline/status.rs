use vstd::prelude::*;
use crate::clock::now_epoch_secs;
use super::canon::PipelineStage;

verus! {

broadcast use vstd::seq_lib::group_filter_ensures;

/// Run state of one pipeline step.
#[derive(Debug, Clone, Copy, PartialEq, Eq, Structural)]
pub enum StepStatus {
    Idle,
    Running,
    Done,
    Failed,
    Skipped,
}

/// One row of the pipeline timeline.
#[derive(Debug, Clone)]
pub struct PipelineStepRuntime {
    pub label: String,
    pub status: StepStatus,
    /// Last run time (epoch seconds).
    pub last_run_secs: u64,
    /// Seconds past the expected interval (0 = on time).
    pub overdue_secs: u64,
}

#[derive(Debug, Clone, Copy, PartialEq, Eq, Structural)]
pub enum AnomalySeverity {
    Info,
    Warning,
    Critical,
}

#[derive(Debug, Clone, Copy, PartialEq, Eq, Structural)]
pub enum AnomalyKind {
    DataStall,
    ApiError,
    Drift,
    RiskBreach,
    Custom,
}

/// A recorded pipeline anomaly.
#[derive(Debug)]
pub struct PipelineAnomalyRuntime {
    pub severity: AnomalySeverity,
    pub kind: AnomalyKind,
    pub message: String,
    pub fix_hint: Option<String>,
    pub auto_fixed: bool,
    /// Epoch seconds when the anomaly was first pushed; 0 = unknown.
    pub created_at: u64,
}

impl Clone for PipelineAnomalyRuntime {
    fn clone(&self) -> (r: Self)
        ensures
            r == *self,
    {
        PipelineAnomalyRuntime {
            severity: self.severity,
            kind: self.kind,
            message: self.message.clone(),
            fix_hint: match &self.fix_hint {
                Some(h) => Some(h.clone()),
                None => None,
            },
            auto_fixed: self.auto_fixed,
            created_at: self.created_at,
        }
    }
}

/// Runtime state of the pipeline: the step timeline and the anomaly queue.
#[derive(Debug, Clone)]
pub struct PipelineStatus {
    pub chain_steps: Vec<PipelineStepRuntime>,
    pub anomalies: Vec<PipelineAnomalyRuntime>,
}

/// Most anomalies kept in the queue; the oldest is dropped beyond this.
pub const MAX_ANOMALIES: usize = 50;

/// Abstract view of a timeline row.
pub struct StepView {
    pub label: Seq<char>,
    pub status: StepStatus,
    pub last_run_secs: u64,
    pub overdue_secs: u64,
}

impl View for PipelineStepRuntime {
    type V = StepView;

    open spec fn view(&self) -> StepView {
        StepView {
            label: self.label@,
            status: self.status,
            last_run_secs: self.last_run_secs,
            overdue_secs: self.overdue_secs,
        }
    }
}

/// The timeline as a sequence of row views.
pub open spec fn steps_view(steps: Seq<PipelineStepRuntime>) -> Seq<StepView> {
    steps.map_values(|s: PipelineStepRuntime| s@)
}

/// `i` is the first index of `steps` whose label is `label`.
pub open spec fn is_first_label(steps: Seq<StepView>, label: Seq<char>, i: int) -> bool {
    &&& 0 <= i < steps.len()
    &&& steps[i].label == label
    &&& forall|j: int| 0 <= j < i ==> steps[j].label != label
}

/// `label` occurs in `steps`.
pub open spec fn has_label(steps: Seq<StepView>, label: Seq<char>) -> bool {
    exists|i: int| 0 <= i < steps.len() && steps[i].label == label
}

/// Number of rows of `steps` labelled `label`.
pub open spec fn label_count(steps: Seq<StepView>, label: Seq<char>) -> nat
    decreases steps.len(),
{
    if steps.len() == 0 {
        0
    } else {
        label_count(steps.drop_last(), label) + (if steps.last().label == label { 1nat } else { 0nat })
    }
}

/// The timeline after recording a run of the step `label`: the first row with that
/// label gets the new run data in place, or a new row is appended when there is none.
pub open spec fn record_step_spec(
    steps: Seq<StepView>,
    label: Seq<char>,
    status: StepStatus,
    last: u64,
    overdue: u64,
) -> Seq<StepView> {
    let row = StepView { label: label, status: status, last_run_secs: last, overdue_secs: overdue };
    if has_label(steps, label) {
        steps.update(choose|i: int| is_first_label(steps, label, i), row)
    } else {
        steps.push(row)
    }
}

/// The timeline after seeding the first `k` canonical stages as Idle.
pub open spec fn seed_stages_spec(steps: Seq<StepView>, k: nat) -> Seq<StepView>
    decreases k,
{
    if k == 0 {
        steps
    } else {
        record_step_spec(
            seed_stages_spec(steps, (k - 1) as nat),
            stage_at((k - 1) as int).label_spec(),
            StepStatus::Idle,
            0,
            0,
        )
    }
}

/// The canonical stage at position `i` (0..7).
pub open spec fn stage_at(i: int) -> PipelineStage {
    if i == 0 {
        PipelineStage::DataIngest
    } else if i == 1 {
        PipelineStage::FeatureExtract
    } else if i == 2 {
        PipelineStage::StrategyEval
    } else if i == 3 {
        PipelineStage::RiskGate
    } else if i == 4 {
        PipelineStage::Execute
    } else if i == 5 {
        PipelineStage::Learn
    } else {
        PipelineStage::Optimize
    }
}

proof fn lemma_first_label_exists(steps: Seq<StepView>, label: Seq<char>)
    requires
        has_label(steps, label),
    ensures
        exists|i: int| is_first_label(steps, label, i),
    decreases steps.len(),
{
    let k = choose|k: int| 0 <= k < steps.len() && steps[k].label == label;
    if exists|j: int| 0 <= j < k && steps[j].label == label {
        let j = choose|j: int| 0 <= j < k && steps[j].label == label;
        let pre = steps.take(k);
        assert(pre[j].label == label);
        lemma_first_label_exists(pre, label);
        let i = choose|i: int| is_first_label(pre, label, i);
        assert forall|m: int| 0 <= m < i implies steps[m].label != label by {
            assert(pre[m] == steps[m]);
        }
        assert(is_first_label(steps, label, i));
    } else {
        assert(is_first_label(steps, label, k));
    }
}

proof fn lemma_first_label_unique(steps: Seq<StepView>, label: Seq<char>, i: int, j: int)
    requires
        is_first_label(steps, label, i),
        is_first_label(steps, label, j),
    ensures
        i == j,
{
}

/// Same severity, kind and message.
pub open spec fn same_anomaly(a: PipelineAnomalyRuntime, severity: AnomalySeverity, kind: AnomalyKind, msg: Seq<char>) -> bool {
    a.severity == severity && a.kind == kind && a.message@ == msg
}

/// The queue after `push_anomaly_at`: unchanged when an identical anomaly is queued,
/// otherwise `fresh` is appended and the oldest entry dropped if the cap is exceeded.
pub open spec fn push_anomaly_spec(q: Seq<PipelineAnomalyRuntime>, fresh: PipelineAnomalyRuntime) -> Seq<PipelineAnomalyRuntime> {
    if exists|i: int| 0 <= i < q.len() && #[trigger] same_anomaly(q[i], fresh.severity, fresh.kind, fresh.message@) {
        q
    } else if q.len() + 1 > MAX_ANOMALIES {
        q.push(fresh).drop_first()
    } else {
        q.push(fresh)
    }
}

/// Whether `purge_stale_warnings` keeps anomaly `a` at time `now` with age limit `max_age`.
pub open spec fn keeps_anomaly(a: PipelineAnomalyRuntime, now: u64, max_age: u64) -> bool {
    a.severity == AnomalySeverity::Critical || a.created_at == 0 || (if now >= a.created_at {
        now - a.created_at
    } else {
        0
    }) <= max_age
}


/// Idle, never-run row for canonical stage `k`.
pub open spec fn idle_row(k: int) -> StepView {
    StepView { label: stage_at(k).label_spec(), status: StepStatus::Idle, last_run_secs: 0, overdue_secs: 0 }
}

proof fn lemma_stage_labels_distinct(i: int, j: int)
    requires
        0 <= i < 7,
        0 <= j < 7,
        i != j,
    ensures
        stage_at(i).label_spec() != stage_at(j).label_spec(),
{
    reveal_strlit("1. Veri Akışı");
    reveal_strlit("2. Özellik Çıkarımı");
    reveal_strlit("3. Strateji & Sinyal");
    reveal_strlit("4. Risk Kapısı");
    reveal_strlit("5. İcra");
    reveal_strlit("6. Öğrenme");
    reveal_strlit("7. Optimizasyon");
    assert(stage_at(i).label_spec()[0] != stage_at(j).label_spec()[0]);
}

/// Seeding an empty timeline yields the seven canonical stages, in order, each Idle
/// and never run.
pub proof fn law_seed_empty_timeline()
    ensures
        seed_stages_spec(Seq::<StepView>::empty(), 7) == Seq::new(7, |k: int| idle_row(k)),
{
    lemma_seed_prefix(7);
}

proof fn lemma_seed_prefix(k: nat)
    requires
        k <= 7,
    ensures
        seed_stages_spec(Seq::<StepView>::empty(), k) == Seq::new(k, |m: int| idle_row(m)),
    decreases k,
{
    if k > 0 {
        lemma_seed_prefix((k - 1) as nat);
        let prev = Seq::new((k - 1) as nat, |m: int| idle_row(m));
        let lab = stage_at((k - 1) as int).label_spec();
        assert(!has_label(prev, lab)) by {
            if has_label(prev, lab) {
                let m = choose|m: int| 0 <= m < prev.len() && prev[m].label == lab;
                lemma_stage_labels_distinct(m, (k - 1) as int);
            }
        }
        assert(prev.push(idle_row((k - 1) as int)) =~= Seq::new(k, |m: int| idle_row(m)));
    }
}

/// Recording the same step twice leaves the timeline as one recording of the later
/// run: a label gets one row, updated in place.
pub proof fn law_record_step_upsert(
    steps: Seq<StepView>,
    label: Seq<char>,
    s1: StepStatus,
    l1: u64,
    o1: u64,
    s2: StepStatus,
    l2: u64,
    o2: u64,
)
    ensures
        record_step_spec(record_step_spec(steps, label, s1, l1, o1), label, s2, l2, o2) == record_step_spec(
            steps,
            label,
            s2,
            l2,
            o2,
        ),
{
    let mid = record_step_spec(steps, label, s1, l1, o1);
    let row2 = StepView { label: label, status: s2, last_run_secs: l2, overdue_secs: o2 };
    if has_label(steps, label) {
        lemma_first_label_exists(steps, label);
        let i = choose|i: int| is_first_label(steps, label, i);
        assert(is_first_label(mid, label, i));
        assert(has_label(mid, label));
        let c = choose|c: int| is_first_label(mid, label, c);
        lemma_first_label_unique(mid, label, c, i);
        assert(mid.update(i, row2) =~= steps.update(i, row2));
    } else {
        let i = steps.len() as int;
        assert(is_first_label(mid, label, i));
        assert(has_label(mid, label));
        let c = choose|c: int| is_first_label(mid, label, c);
        lemma_first_label_unique(mid, label, c, i);
        assert(mid.update(i, row2) =~= steps.push(row2));
    }
}

/// Purging never drops a Critical anomaly.
pub proof fn law_purge_keeps_critical(q: Seq<PipelineAnomalyRuntime>, now: u64, max_age: u64, i: int)
    requires
        0 <= i < q.len(),
        q[i].severity == AnomalySeverity::Critical,
    ensures
        q.filter(|a: PipelineAnomalyRuntime| keeps_anomaly(a, now, max_age)).contains(q[i]),
{
}

/// Purging twice at the same time with the same age limit drops nothing the second
/// time.
pub proof fn law_purge_idempotent(q: Seq<PipelineAnomalyRuntime>, now: u64, max_age: u64)
    ensures
        ({
            let f = |a: PipelineAnomalyRuntime| keeps_anomaly(a, now, max_age);
            q.filter(f).filter(f) == q.filter(f)
        }),
{
    let f = |a: PipelineAnomalyRuntime| keeps_anomaly(a, now, max_age);
    let p = q.filter(f);
    lemma_filter_all_kept(p, f);
}

proof fn lemma_filter_all_kept(p: Seq<PipelineAnomalyRuntime>, f: spec_fn(PipelineAnomalyRuntime) -> bool)
    requires
        forall|i: int| 0 <= i < p.len() ==> f(#[trigger] p[i]),
    ensures
        p.filter(f) == p,
    decreases p.len(),
{
    reveal_with_fuel(Seq::filter, 1);
    if p.len() > 0 {
        lemma_filter_all_kept(p.drop_last(), f);
        assert(p.drop_last().push(p.last()) =~= p);
    }
}

/// Pushing the same anomaly twice queues it once, and an anomaly identical to one
/// already queued leaves the queue unchanged, whatever its length.
pub proof fn law_push_anomaly_dedupe(q: Seq<PipelineAnomalyRuntime>, fresh: PipelineAnomalyRuntime)
    ensures
        (exists|i: int| 0 <= i < q.len() && #[trigger] same_anomaly(q[i], fresh.severity, fresh.kind, fresh.message@))
            ==> push_anomaly_spec(q, fresh) == q,
        push_anomaly_spec(push_anomaly_spec(q, fresh), fresh) == push_anomaly_spec(q, fresh),
{
    let once = push_anomaly_spec(q, fresh);
    if exists|i: int| 0 <= i < q.len() && #[trigger] same_anomaly(q[i], fresh.severity, fresh.kind, fresh.message@) {
    } else {
        let k = once.len() - 1;
        assert(once[k] == fresh);
        assert(same_anomaly(once[k], fresh.severity, fresh.kind, fresh.message@));
    }
}

impl PipelineStatus {
    /// Empty timeline and anomaly queue.
    pub fn new() -> (r: Self)
        ensures
            r.chain_steps@.len() == 0,
            r.anomalies@.len() == 0,
    {
        PipelineStatus { chain_steps: Vec::new(), anomalies: Vec::new() }
    }

    /// Records a run of the step `label`: updates the first row with that label in
    /// place, or appends a new row when the label is not on the timeline yet.
    pub fn record_step(&mut self, label: &str, status: StepStatus, last_run_secs: u64, overdue_secs: u64)
        ensures
            steps_view(final(self).chain_steps@) == record_step_spec(
                steps_view(old(self).chain_steps@),
                label@,
                status,
                last_run_secs,
                overdue_secs,
            ),
            final(self).anomalies@ == old(self).anomalies@,
    {
        let ghost old_v = steps_view(self.chain_steps@);
        let ghost row = StepView { label: label@, status: status, last_run_secs: last_run_secs, overdue_secs: overdue_secs };
        let label_s = label.to_string();
        let n = self.chain_steps.len();
        let mut i: usize = 0;
        while i < n
            invariant
                n == self.chain_steps@.len(),
                self.chain_steps@ == old(self).chain_steps@,
                self.anomalies@ == old(self).anomalies@,
                old_v == steps_view(old(self).chain_steps@),
                row == (StepView { label: label@, status: status, last_run_secs: last_run_secs, overdue_secs: overdue_secs }),
                label_s@ == label@,
                i <= n,
                forall|j: int| 0 <= j < i ==> old_v[j].label != label@,
            decreases n - i,
        {
            let same = self.chain_steps[i].label == label_s;
            if same {
                assert(self.chain_steps@[i as int].label@ == label@);
                let old_label = self.chain_steps[i].label.clone();
                assert(old_label@ == label@);
                let updated = PipelineStepRuntime {
                    label: old_label,
                    status,
                    last_run_secs,
                    overdue_secs,
                };
                assert(updated@ == row);
                self.chain_steps.set(i, updated);
                proof {
                    assert(is_first_label(old_v, label@, i as int));
                    assert(has_label(old_v, label@));
                    let c = choose|k: int| is_first_label(old_v, label@, k);
                    lemma_first_label_unique(old_v, label@, c, i as int);
                    assert forall|m: int| 0 <= m < n implies #[trigger] steps_view(self.chain_steps@)[m]
                        == old_v.update(i as int, row)[m] by {
                        if m != i {
                            assert(self.chain_steps@[m] == old(self).chain_steps@[m]);
                        }
                    }
                    assert(steps_view(self.chain_steps@) =~= old_v.update(i as int, row));
                }
                return;
            }
            i += 1;
        }
        proof {
            assert(!has_label(old_v, label@));
        }
        self.chain_steps.push(
            PipelineStepRuntime { label: label_s, status, last_run_secs, overdue_secs },
        );
        assert(steps_view(self.chain_steps@) =~= old_v.push(row));
    }

    /// Pushes an anomaly stamped with `now`. An anomaly with the same severity, kind
    /// and message already queued is not pushed again, whatever the queue's length;
    /// a new one is appended and, once the queue holds more than `MAX_ANOMALIES`,
    /// the oldest entry is dropped.
    pub fn push_anomaly_at(&mut self, severity: AnomalySeverity, kind: AnomalyKind, message: &str, now: u64)
        ensures
            exists|fresh: PipelineAnomalyRuntime|
                {
                    &&& fresh.severity == severity
                    &&& fresh.kind == kind
                    &&& fresh.message@ == message@
                    &&& fresh.fix_hint is None
                    &&& !fresh.auto_fixed
                    &&& fresh.created_at == now
                    &&& final(self).anomalies@ == push_anomaly_spec(old(self).anomalies@, fresh)
                },
            old(self).anomalies@.len() <= MAX_ANOMALIES ==> final(self).anomalies@.len() <= MAX_ANOMALIES,
            final(self).chain_steps@ == old(self).chain_steps@,
    {
        let msg = message.to_string();
        let n = self.anomalies.len();
        let mut i: usize = 0;
        while i < n
            invariant
                n == self.anomalies@.len(),
                self.anomalies@ == old(self).anomalies@,
                self.chain_steps@ == old(self).chain_steps@,
                msg@ == message@,
                i <= n,
                forall|j: int| 0 <= j < i ==> !same_anomaly(#[trigger] self.anomalies@[j], severity, kind, message@),
            decreases n - i,
        {
            let a = &self.anomalies[i];
            if a.severity == severity && a.kind == kind && a.message == msg {
                let ghost fresh = PipelineAnomalyRuntime {
                    severity: severity,
                    kind: kind,
                    message: msg,
                    fix_hint: None,
                    auto_fixed: false,
                    created_at: now,
                };
                assert(same_anomaly(self.anomalies@[i as int], fresh.severity, fresh.kind, fresh.message@));
                assert(push_anomaly_spec(old(self).anomalies@, fresh) == old(self).anomalies@);
                return;
            }
            i += 1;
        }
        let fresh = PipelineAnomalyRuntime {
            severity,
            kind,
            message: msg,
            fix_hint: None,
            auto_fixed: false,
            created_at: now,
        };
        let ghost fresh_g = fresh;
        self.anomalies.push(fresh);
        if self.anomalies.len() > MAX_ANOMALIES {
            self.anomalies.remove(0);
        }
        assert(!exists|k: int|
            0 <= k < old(self).anomalies@.len() && #[trigger] same_anomaly(
                old(self).anomalies@[k],
                fresh_g.severity,
                fresh_g.kind,
                fresh_g.message@,
            ));
        assert(self.anomalies@ =~= push_anomaly_spec(old(self).anomalies@, fresh_g));
    }

    /// Pushes an anomaly stamped with the current clock (see `push_anomaly_at`).
    pub fn push_anomaly(&mut self, severity: AnomalySeverity, kind: AnomalyKind, message: &str)
        ensures
            exists|fresh: PipelineAnomalyRuntime|
                {
                    &&& fresh.severity == severity
                    &&& fresh.kind == kind
                    &&& fresh.message@ == message@
                    &&& fresh.fix_hint is None
                    &&& !fresh.auto_fixed
                    &&& final(self).anomalies@ == push_anomaly_spec(old(self).anomalies@, fresh)
                },
            old(self).anomalies@.len() <= MAX_ANOMALIES ==> final(self).anomalies@.len() <= MAX_ANOMALIES,
            final(self).chain_steps@ == old(self).chain_steps@,
    {
        let now = now_epoch_secs();
        self.push_anomaly_at(severity, kind, message, now);
    }

    /// Drops Warning/Info anomalies older than `max_age_secs` at `now_secs`. Critical
    /// anomalies and anomalies of unknown age (`created_at == 0`) are kept; a zero
    /// `max_age_secs` disables purging. Returns how many were dropped.
    pub fn purge_stale_warnings(&mut self, now_secs: u64, max_age_secs: u64) -> (removed: usize)
        ensures
            max_age_secs == 0 ==> final(self).anomalies@ == old(self).anomalies@,
            max_age_secs != 0 ==> final(self).anomalies@ == old(self).anomalies@.filter(
                |a: PipelineAnomalyRuntime| keeps_anomaly(a, now_secs, max_age_secs),
            ),
            removed == old(self).anomalies@.len() - final(self).anomalies@.len(),
            final(self).chain_steps@ == old(self).chain_steps@,
    {
        if max_age_secs == 0 {
            return 0;
        }
        let ghost pred = |a: PipelineAnomalyRuntime| keeps_anomaly(a, now_secs, max_age_secs);
        let before = self.anomalies.len();
        let mut kept: Vec<PipelineAnomalyRuntime> = Vec::new();
        let mut i: usize = 0;
        while i < before
            invariant
                before == self.anomalies@.len(),
                self.anomalies@ == old(self).anomalies@,
                self.chain_steps@ == old(self).chain_steps@,
                i <= before,
                kept@ == self.anomalies@.take(i as int).filter(pred),
                pred == (|a: PipelineAnomalyRuntime| keeps_anomaly(a, now_secs, max_age_secs)),
                max_age_secs != 0,
            decreases before - i,
        {
            let a = &self.anomalies[i];
            let age = if now_secs >= a.created_at { now_secs - a.created_at } else { 0 };
            let keep = a.severity == AnomalySeverity::Critical || a.created_at == 0 || age <= max_age_secs;
            proof {
                assert(self.anomalies@.take(i + 1).drop_last() =~= self.anomalies@.take(i as int));
                assert(keep == pred(self.anomalies@[i as int]));
                reveal_with_fuel(Seq::filter, 1);
                assert(self.anomalies@.take(i + 1).last() == self.anomalies@[i as int]);
            }
            if keep {
                let c = a.clone();
                kept.push(c);
            }
            i += 1;
        }
        assert(self.anomalies@.take(before as int) =~= self.anomalies@);
        self.anomalies = kept;
        before - self.anomalies.len()
    }

    /// Seeds every canonical stage on the timeline as Idle, in canonical order.
    pub fn init_canon_stages(&mut self)
        ensures
            steps_view(final(self).chain_steps@) == seed_stages_spec(steps_view(old(self).chain_steps@), 7),
            final(self).anomalies@ == old(self).anomalies@,
    {
        let stages = PipelineStage::ALL;
        let mut k: usize = 0;
        while k < 7
            invariant
                k <= 7,
                stages == PipelineStage::ALL,
                steps_view(self.chain_steps@) == seed_stages_spec(steps_view(old(self).chain_steps@), k as nat),
                self.anomalies@ == old(self).anomalies@,
            decreases 7 - k,
        {
            let stage = stages[k];
            assert(stage == stage_at(k as int));
            self.record_step(stage.label(), StepStatus::Idle, 0, 0);
            k += 1;
        }
    }

    /// Marks a canonical stage as finished at `now` with `status`.
    pub fn mark_stage_completed_at(&mut self, stage: PipelineStage, status: StepStatus, now: u64)
        ensures
            steps_view(final(self).chain_steps@) == record_step_spec(
                steps_view(old(self).chain_steps@),
                stage.label_spec(),
                status,
                now,
                0,
            ),
            final(self).anomalies@ == old(self).anomalies@,
    {
        self.record_step(stage.label(), status, now, 0);
    }

    /// Marks a canonical stage as finished now with `status`; the row's time is the
    /// clock reading.
    pub fn mark_stage_completed(&mut self, stage: PipelineStage, status: StepStatus)
        ensures
            exists|now: u64|
                steps_view(final(self).chain_steps@) == #[trigger] record_step_spec(
                    steps_view(old(self).chain_steps@),
                    stage.label_spec(),
                    status,
                    now,
                    0,
                ),
            final(self).anomalies@ == old(self).anomalies@,
    {
        let now = now_epoch_secs();
        self.mark_stage_completed_at(stage, status, now);
    }
}

} // verus!
