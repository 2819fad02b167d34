//! The lens contract.

use kronika_incident::cluster::Cluster;
use kronika_incident::dispatch::{LimitHit, SectionColumn, WorkBudget};
use kronika_incident::engine::{ClockRelation, EvalContext};
use kronika_incident::evidence::confidence::ConfidenceCap;
use kronika_incident::evidence::sink::{FindingSink, OutputCounts, OutputLimits};
use kronika_incident::lens::Lens;
use kronika_incident::series::SeriesSet;
use kronika_incident::typed::inputs::TypedInputs;

struct SilentLens;

impl Lens for SilentLens {
    fn id(&self) -> &'static str {
        "TEST-000"
    }
    fn inputs(&self) -> &'static [SectionColumn] {
        &[]
    }
    fn confidence_cap(&self) -> ConfidenceCap {
        ConfidenceCap::Low
    }
    fn evaluate(
        &self,
        _cluster: &Cluster,
        _series: &SeriesSet,
        _typed: &TypedInputs,
        _context: &EvalContext,
        _sink: &mut FindingSink<'_>,
    ) -> Result<(), LimitHit> {
        Ok(())
    }
}

#[test]
fn context_preserves_an_unknown_clock_relation() {
    assert_eq!(
        EvalContext::for_test(ClockRelation::Unknown).clock_relation(),
        ClockRelation::Unknown
    );
}

#[test]
fn context_preserves_the_simultaneous_observation_contract() {
    assert_eq!(
        EvalContext::for_test(ClockRelation::Simultaneous)
            .clock_relation(),
        ClockRelation::Simultaneous
    );
}

#[test]
fn the_lens_trait_is_object_safe_and_callable() {
    let lens: Box<dyn Lens> = Box::new(SilentLens);
    assert_eq!(lens.id(), "TEST-000");
    assert!(lens.inputs().is_empty());
    assert_eq!(lens.confidence_cap(), ConfidenceCap::Low);

    let cluster = Cluster {
        start_us: 0,
        end_us: 10,
        members: Vec::new(),
    };
    let mut findings = Vec::new();
    let mut budget = WorkBudget::new(10);
    let mut counts = OutputCounts::new();
    let mut sink = FindingSink::new(
        &mut findings,
        &mut budget,
        &mut counts,
        OutputLimits::new(1, 1),
        "TEST-000",
        ConfidenceCap::Low,
    );
    lens.evaluate(
        &cluster,
        &SeriesSet::for_test(0),
        &TypedInputs::new(),
        &EvalContext::for_test(ClockRelation::Unknown),
        &mut sink,
    )
    .expect("silent lens");
    assert!(findings.is_empty());
}

#[test]
fn only_a_shared_clock_permits_temporal_direction() {
    for (relation, permitted) in [
        (ClockRelation::SameDomain, true),
        (ClockRelation::Simultaneous, false),
        (ClockRelation::Unknown, false),
    ] {
        let context = EvalContext::for_test(relation);
        assert_eq!(context.temporal_direction().is_some(), permitted);
    }
}
