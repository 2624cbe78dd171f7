use vstd::prelude::*;

verus! {

/// Health of a monitored component, with the reason when it is not healthy.
#[derive(Debug, Clone, PartialEq, Eq)]
pub enum HealthStatus {
    Healthy,
    Warning(String),
    Critical(String),
}

/// Abstract view of a health status.
pub enum HealthView {
    Healthy,
    Warning(Seq<char>),
    Critical(Seq<char>),
}

impl View for HealthStatus {
    type V = HealthView;

    open spec fn view(&self) -> HealthView {
        match self {
            HealthStatus::Healthy => HealthView::Healthy,
            HealthStatus::Warning(m) => HealthView::Warning(m@),
            HealthStatus::Critical(m) => HealthView::Critical(m@),
        }
    }
}

} // verus!
