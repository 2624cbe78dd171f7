use memos_trading_core::robot::data_pipeline::{PipelineStage, PipelineStatus, StepStatus};

#[test]
fn all_stages_are_seven_in_canonical_order() {
    assert_eq!(PipelineStage::ALL.len(), 7);
    assert_eq!(PipelineStage::ALL[0], PipelineStage::DataIngest);
    assert_eq!(PipelineStage::ALL[6], PipelineStage::Optimize);
}

#[test]
fn labels_start_with_numeric_prefix() {
    for (i, stage) in PipelineStage::ALL.iter().enumerate() {
        let expected_prefix = format!("{}.", i + 1);
        assert!(stage.label().starts_with(&expected_prefix),
            "stage {:?} label should start with {}, got: {}",
            stage, expected_prefix, stage.label());
    }
}

#[test]
fn init_canon_stages_seeds_seven_idle_entries_in_order() {
    let mut pipe = PipelineStatus::new();
    pipe.init_canon_stages();
    assert_eq!(pipe.chain_steps.len(), 7);
    for (i, step) in pipe.chain_steps.iter().enumerate() {
        assert_eq!(step.label, PipelineStage::ALL[i].label());
        assert_eq!(step.status, StepStatus::Idle);
    }
}

#[test]
fn mark_stage_completed_updates_existing_entry_in_place() {
    let mut pipe = PipelineStatus::new();
    pipe.init_canon_stages();
    let before_len = pipe.chain_steps.len();
    pipe.mark_stage_completed(PipelineStage::DataIngest, StepStatus::Done);
    assert_eq!(pipe.chain_steps.len(), before_len);
    let ingest = pipe.chain_steps.iter()
        .find(|s| s.label == PipelineStage::DataIngest.label())
        .expect("DataIngest label must be present");
    assert_eq!(ingest.status, StepStatus::Done);
    assert!(ingest.last_run_secs > 0, "last_run_secs must be set to now");
}

#[test]
fn mark_stage_supports_failed_and_skipped() {
    let mut pipe = PipelineStatus::new();
    pipe.init_canon_stages();
    pipe.mark_stage_completed(PipelineStage::StrategyEval, StepStatus::Failed);
    pipe.mark_stage_completed(PipelineStage::RiskGate,     StepStatus::Skipped);

    let eval = pipe.chain_steps.iter()
        .find(|s| s.label == PipelineStage::StrategyEval.label()).unwrap();
    let risk = pipe.chain_steps.iter()
        .find(|s| s.label == PipelineStage::RiskGate.label()).unwrap();
    assert_eq!(eval.status, StepStatus::Failed);
    assert_eq!(risk.status, StepStatus::Skipped);
}
