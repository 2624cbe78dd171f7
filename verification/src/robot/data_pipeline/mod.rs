pub mod cache;
pub mod canon;
pub mod cleaner;
pub mod health;
pub mod htf_loader;
pub mod normalizer;
pub mod sources;
pub mod orchestrator;
pub mod status;
pub mod synth;
pub mod time_order;
pub mod validator;

pub use cache::CandleCache;
pub use canon::PipelineStage;
pub use cleaner::DataCleaner;
pub use htf_loader::{aggregate_1m_to, interval_minutes, HTF_MIN_REQUIRED};
pub use normalizer::DataNormalizer;
pub use orchestrator::DataPipeline;
pub use status::{AnomalyKind, AnomalySeverity, PipelineAnomalyRuntime, PipelineStatus, PipelineStepRuntime, StepStatus};
pub use synth::{CandleSynth, Interval};
pub use validator::DataValidator;
