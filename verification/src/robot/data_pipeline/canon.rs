use vstd::prelude::*;

verus! {

/// The seven canonical phases of the decision/execution pipeline, in order.
#[derive(Debug, Clone, Copy, PartialEq, Eq, Structural, Hash)]
pub enum PipelineStage {
    DataIngest,
    FeatureExtract,
    StrategyEval,
    RiskGate,
    Execute,
    Learn,
    Optimize,
}

impl PipelineStage {
    /// All stages in canonical order.
    pub const ALL: [PipelineStage; 7] = [
        PipelineStage::DataIngest,
        PipelineStage::FeatureExtract,
        PipelineStage::StrategyEval,
        PipelineStage::RiskGate,
        PipelineStage::Execute,
        PipelineStage::Learn,
        PipelineStage::Optimize,
    ];

    /// The stage's human-readable label.
    pub open spec fn label_spec(self) -> Seq<char> {
        match self {
            PipelineStage::DataIngest => "1. Veri Akışı"@,
            PipelineStage::FeatureExtract => "2. Özellik Çıkarımı"@,
            PipelineStage::StrategyEval => "3. Strateji & Sinyal"@,
            PipelineStage::RiskGate => "4. Risk Kapısı"@,
            PipelineStage::Execute => "5. İcra"@,
            PipelineStage::Learn => "6. Öğrenme"@,
            PipelineStage::Optimize => "7. Optimizasyon"@,
        }
    }

    /// Stable, numbered label used by the timeline view.
    pub fn label(self) -> (r: &'static str)
        ensures
            r@ == self.label_spec(),
    {
        match self {
            PipelineStage::DataIngest => "1. Veri Akışı",
            PipelineStage::FeatureExtract => "2. Özellik Çıkarımı",
            PipelineStage::StrategyEval => "3. Strateji & Sinyal",
            PipelineStage::RiskGate => "4. Risk Kapısı",
            PipelineStage::Execute => "5. İcra",
            PipelineStage::Learn => "6. Öğrenme",
            PipelineStage::Optimize => "7. Optimizasyon",
        }
    }
}

} // verus!
