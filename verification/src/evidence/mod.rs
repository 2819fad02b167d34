//! Evidence-gated confidence and direction.

pub mod confidence;
pub mod counter;
pub mod coverage;
pub mod direct;
pub mod finding;
pub mod gauge;
pub mod sink;
pub mod value;

pub use confidence::{Confidence, ConfidenceCap, Role};
pub use counter::{
    CounterEvidence, CounterEvidenceInput, CounterEvidenceWindow, CounterEvidenceWindowInput,
    CounterMeasurementKind, CounterOperand, CounterOperandPurpose,
};
pub use direct::{DirectEvidence, LockParticipant, SampledLockEdge};
pub use finding::{Evidence, Finding, FindingDraft, FindingScope};
pub use gauge::{
    GaugeEntity, GaugeEvidence, GaugeMeasurement, GaugeRatio, GaugeTrendInput, GaugeValueInput,
};
pub use value::{FiniteValue, GaugeUnit, ThresholdKind};
