use lkjscript_platform::base_read::WitnessReadWork;
use lkjscript_platform::budget::{ChangeBudget, ChangeBudgetMeter, ChangeBudgetWork};
use lkjscript_platform::derived::DerivedDelta;
use lkjscript_platform::impact::{ImpactPlan, ImpactWork, SummaryDelta};
use lkjscript_platform::kernel::{OwnerKey, PackageId};
use lkjscript_platform::witness::{ExactOwnerKey, RelationEdge, RelationEndpoint, RelationKind};

fn meter(budget: ChangeBudget) -> ChangeBudgetMeter {
    ChangeBudgetMeter::new(budget, ChangeBudgetWork::default()).expect("the budget and the empty work are valid")
}

fn no_summaries() -> SummaryDelta {
    SummaryDelta { selected: vec![], edits: vec![], relation_edges_read: 0, read_work: WitnessReadWork::default() }
}

#[test]
fn structural_validation_work_accumulates_and_is_checked() {
    let mut budget = ChangeBudget::default();
    budget.validation.maximum_owner_records = 5;
    let mut meter = meter(budget);
    let reads = WitnessReadWork { point_reads: 2, ..WitnessReadWork::default() };
    meter.observe_structural(3, 4, 1, reads).expect("within budget");
    let refused = meter.observe_structural(3, 0, 0, WitnessReadWork::default()).unwrap_err();
    assert_eq!(refused.code, "change_budget_validation_owner_records");
    let work = meter.finish();
    assert_eq!(work.validation.owner_records, 6);
    assert_eq!(work.validation.ownership_entries, 4);
    assert_eq!(work.validation.type_objects, 1);
    assert_eq!(work.witness_reads.point_reads, 2);
}

#[test]
fn test_planning_work_keeps_the_largest_selection() {
    let mut meter = meter(ChangeBudget::default());
    meter.observe_tests(7, 3, 4, 5, WitnessReadWork::default()).expect("within budget");
    meter.observe_tests(2, 1, 1, 6, WitnessReadWork::default()).expect("within budget");
    let work = meter.finish();
    assert_eq!(work.tests.selected, 7);
    assert_eq!(work.tests.ownership_steps, 1);
    assert_eq!(work.tests.owners_visited, 1);
    assert_eq!(work.relation_edges, 11);
}

#[test]
fn witness_edit_preflight_counts_two_edits_per_edge() {
    let mut budget = ChangeBudget::default();
    budget.witness_update.maximum_edits = 4;
    let meter = meter(budget);
    let derived = DerivedDelta::default();
    assert!(meter.preflight_witness_edits(&derived, &no_summaries(), 1, 1).is_ok());
    let refused = meter.preflight_witness_edits(&derived, &no_summaries(), 2, 1).unwrap_err();
    assert_eq!(refused.code, "change_budget_witness_edits");
}

#[test]
fn witness_update_work_replaces_the_previous_update() {
    let mut meter = meter(ChangeBudget::default());
    meter.observe_witness(1, 2, 3, 4, 5, 6, WitnessReadWork::default()).expect("within budget");
    meter.observe_witness(1, 0, 0, 0, 2, 3, WitnessReadWork { objects_read: 1, ..WitnessReadWork::default() }).expect("within budget");
    let work = meter.finish();
    assert_eq!(work.witness_update.edits, 1);
    assert_eq!(work.witness_update.pages_encoded, 2);
    assert_eq!(work.witness_update.bytes_encoded, 3);
    assert_eq!(work.witness_reads.objects_read, 1);
}

#[test]
fn expression_validation_and_relation_edges_are_metered() {
    let mut budget = ChangeBudget::default();
    budget.impact.maximum_relation_edges = 10;
    let mut meter = meter(budget);
    meter.observe_expression_validation(5, 1).expect("within budget");
    meter.observe_tests(0, 0, 0, 4, WitnessReadWork::default()).expect("within budget");
    assert_eq!(meter.remaining_relation_edges("later").unwrap(), 6);
    let refused = meter.observe_tests(0, 0, 0, 7, WitnessReadWork::default()).unwrap_err();
    assert_eq!(refused.code, "change_budget_relation_edges");
}

#[test]
fn impact_frontier_counts_each_owner_once() {
    let mut meter = meter(ChangeBudget::default());
    let a = OwnerKey::Declaration(1);
    let b = OwnerKey::Declaration(2);
    let plan = ImpactPlan {
        structurally_checked: vec![a],
        semantically_checked: vec![a, b],
        summary_owners: vec![b],
        compiler_units: vec![],
        tests: vec![b],
        reasons: vec![],
        work: ImpactWork { summary_owners_examined: 3, reverse_edges_visited: 4, ..ImpactWork::default() },
    };
    meter.observe_impact(&plan).expect("within budget");
    let work = meter.finish();
    assert_eq!(work.affected_frontier_owners, 2);
    assert_eq!(work.impact_summary_owners, 3);
    assert_eq!(work.tests.selected, 1);
    assert_eq!(work.relation_edges, 4);
}

#[test]
fn test_dependency_changes_get_half_the_remaining_witness_edits() {
    let mut budget = ChangeBudget::default();
    budget.witness_update.maximum_edits = 11;
    let meter = meter(budget);
    let mut derived = DerivedDelta::default();
    let endpoint = RelationEndpoint::Owner(ExactOwnerKey { package: PackageId(7), owner: OwnerKey::Declaration(1) });
    derived.relations.removed.push(RelationEdge { source: endpoint, kind: RelationKind::FunctionCall, target: endpoint });
    assert_eq!(meter.remaining_test_dependency_changes(&derived, &no_summaries(), "tests").unwrap(), 4);
    assert!(meter.preflight_witness_edits(&derived, &no_summaries(), 2, 2).is_ok());
    assert!(meter.preflight_witness_edits(&derived, &no_summaries(), 3, 2).is_err());
}
