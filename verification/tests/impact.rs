use lkjscript_platform::bootstrap::ProjectTemplate;
use lkjscript_platform::base_read::WitnessReadWork;
use lkjscript_platform::budget::ImpactAdmission;
use lkjscript_platform::delta::CanonicalDelta;
use lkjscript_platform::derived::DerivedDelta;
use lkjscript_platform::impact::{
    admit_affected, plan_impact, remaining_relations, sort_reasons, summary_dimension_change, ImpactReason,
    ImpactReasonKind, OwnerSummaryEdit, SummaryDelta, SummaryDimensionChange,
};
use lkjscript_platform::kernel::{KernelSnapshot, OwnerKey, OwnerKind, OwnerRecord, PackageId, RepositoryId, SemanticRoot};
use lkjscript_platform::overlay::KernelOverlay;
use lkjscript_platform::witness::{
    ExactOwnerKey, FullWitness, OwnerSummary, OwnershipEntry, OwnershipParent, OwnershipRole, PropagationClass,
    RelationEdge, RelationEndpoint, RelationKind, ValidationWitnessManifest,
};
use std::cmp::Ordering;

fn summary(seed: u64) -> OwnerSummary {
    OwnerSummary {
        kind: OwnerKind::PureFunction,
        semantic_interface: seed,
        implementation: seed,
        type_digest: seed,
        effect: seed,
        capability: seed,
        relations: seed,
        presentation: seed,
        test: seed,
        validation_dependencies: seed,
    }
}

#[test]
fn summary_dimensions_compare_field_by_field() {
    let owner = OwnerKey::Declaration(1);
    let created = summary_dimension_change(&OwnerSummaryEdit { owner, before: None, after: Some(summary(1)) });
    assert!(created.created && created.executable());
    let deleted = summary_dimension_change(&OwnerSummaryEdit { owner, before: Some(summary(1)), after: None });
    assert!(deleted.deleted && !deleted.affects_validation(PropagationClass::Presentation));
    let mut presentation = summary(1);
    presentation.presentation = 2;
    let cosmetic = summary_dimension_change(&OwnerSummaryEdit { owner, before: Some(summary(1)), after: Some(presentation) });
    assert_eq!(cosmetic, SummaryDimensionChange { presentation: true, ..SummaryDimensionChange::default() });
    assert!(!cosmetic.executable());
    let mut implementation = summary(1);
    implementation.implementation = 3;
    let behavior = summary_dimension_change(&OwnerSummaryEdit { owner, before: Some(summary(1)), after: Some(implementation) });
    assert!(behavior.executable());
    assert!(behavior.affects_validation(PropagationClass::Test));
    assert!(!behavior.affects_validation(PropagationClass::Type));
    let none = summary_dimension_change(&OwnerSummaryEdit { owner, before: None, after: None });
    assert_eq!(none, SummaryDimensionChange::default());
}

#[test]
fn impact_reason_kinds_round_trip_through_names() {
    for kind in [
        ImpactReasonKind::DirectSemanticChange,
        ImpactReasonKind::DependencyBinding,
        ImpactReasonKind::ValidationDependency,
        ImpactReasonKind::TestBehavior,
    ] {
        assert_eq!(ImpactReasonKind::parse(kind.name()), Some(kind));
    }
    assert_eq!(ImpactReasonKind::DirectSemanticChange.name(), "direct_semantic_change");
    assert_eq!(ImpactReasonKind::parse("test"), None);
}

#[test]
fn impact_reasons_order_by_kind_then_endpoints_then_relation() {
    let reason = ImpactReason {
        kind: ImpactReasonKind::ValidationDependency,
        source: OwnerKey::Declaration(2),
        target: OwnerKey::Declaration(3),
        relation: Some(RelationKind::FunctionCall),
    };
    assert_eq!(reason.logical_cmp(&reason), Ordering::Equal);
    let earlier_kind = ImpactReason { kind: ImpactReasonKind::DirectSemanticChange, ..reason };
    assert_eq!(earlier_kind.logical_cmp(&reason), Ordering::Less);
    assert_eq!(reason.logical_cmp(&earlier_kind), Ordering::Greater);
    let module_source = ImpactReason { source: OwnerKey::Module(9), ..reason };
    assert_eq!(module_source.logical_cmp(&reason), Ordering::Less);
    let no_relation = ImpactReason { relation: None, ..reason };
    assert_eq!(no_relation.logical_cmp(&reason), Ordering::Less);
    let later_target = ImpactReason { target: OwnerKey::Declaration(4), ..reason };
    assert_eq!(later_target.logical_cmp(&reason), Ordering::Greater);
}

#[test]
fn affected_frontier_and_relation_budgets_are_enforced() {
    let mut admitted = Vec::new();
    admit_affected(&mut admitted, OwnerKey::Declaration(1), 1).expect("first owner");
    admit_affected(&mut admitted, OwnerKey::Declaration(1), 1).expect("known owner");
    let error = admit_affected(&mut admitted, OwnerKey::Declaration(2), 1).expect_err("full frontier");
    assert_eq!(error.code, "change_budget_affected_frontier_owners");
    assert_eq!(admitted, vec![OwnerKey::Declaration(1)]);
    assert_eq!(remaining_relations(10, 4).unwrap(), 6);
    assert_eq!(remaining_relations(3, 4).unwrap_err().code, "change_budget_relation_edges");
}

#[test]
fn project_templates_parse_by_name() {
    assert_eq!(ProjectTemplate::parse("minimal").unwrap(), ProjectTemplate::Minimal);
    assert_eq!(ProjectTemplate::parse("command").unwrap(), ProjectTemplate::Command);
    assert_eq!(ProjectTemplate::Command.name(), "command");
    let error = ProjectTemplate::parse("full").unwrap_err();
    assert_eq!(error.code, "bootstrap_template");
}

fn planning_snapshot() -> KernelSnapshot {
    KernelSnapshot {
        root: SemanticRoot { repository_id: RepositoryId(1), package_id: PackageId(7), owners: 2, dependencies: 0, retirements: 0 },
        owners: vec![
            OwnerRecord { owner: OwnerKey::Declaration(1), kind: OwnerKind::PureFunction, content: 10 },
            OwnerRecord { owner: OwnerKey::Declaration(3), kind: OwnerKind::Test, content: 30 },
        ],
        types: vec![],
        dependency_types: vec![],
        dependency_interfaces: vec![],
        dependencies: vec![],
        retirements: vec![],
    }
}

fn planning_witness(reverse_relations: Vec<RelationEdge>) -> FullWitness {
    FullWitness {
        manifest: ValidationWitnessManifest {
            repository_id: RepositoryId(1),
            package_id: PackageId(7),
            contract_version: 1,
            owner_summaries: 0,
        },
        namespaces: vec![],
        ownership: vec![],
        relations: vec![],
        reverse_relations,
        summaries: vec![],
        summary_bindings: vec![],
        test_dependencies: vec![],
    }
}

fn empty_canonical() -> CanonicalDelta {
    CanonicalDelta { owners: vec![], type_additions: vec![], dependencies: vec![], retirements: vec![] }
}

fn local(id: u64) -> RelationEndpoint {
    RelationEndpoint::Owner(ExactOwnerKey { package: PackageId(7), owner: OwnerKey::Declaration(id) })
}

#[test]
fn quiet_request_plans_nothing_but_the_selected_summaries() {
    let mut overlay = KernelOverlay::new(planning_snapshot(), empty_canonical());
    let initial = SummaryDelta {
        selected: vec![OwnerKey::Declaration(4)],
        edits: vec![],
        relation_edges_read: 0,
        read_work: WitnessReadWork::default(),
    };
    let plan = plan_impact(
        &mut overlay,
        &empty_canonical(),
        DerivedDelta::default(),
        planning_witness(vec![]),
        &initial,
        ImpactAdmission::default(),
    )
    .expect("a quiet request fits every budget");
    assert!(plan.structurally_checked.is_empty());
    assert!(plan.semantically_checked.is_empty());
    assert_eq!(plan.summary_owners, vec![OwnerKey::Declaration(4)]);
    assert!(plan.compiler_units.is_empty());
    assert!(plan.tests.is_empty());
    assert!(plan.reasons.is_empty());
    assert_eq!(plan.work.summary_owners_examined, 2);
    assert_eq!(plan.work.summary_edits_examined, 0);
    assert_eq!(plan.work.reverse_edges_visited, 0);
}

#[test]
fn implementation_change_reaches_the_test_of_its_subject() {
    let subject = OwnerKey::Declaration(1);
    let test = OwnerKey::Declaration(3);
    let edge = RelationEdge { source: local(3), kind: RelationKind::TestSubject, target: local(1) };
    let mut overlay = KernelOverlay::new(planning_snapshot(), empty_canonical());
    let mut changed = summary(1);
    changed.implementation = 2;
    let initial = SummaryDelta {
        selected: vec![],
        edits: vec![OwnerSummaryEdit { owner: subject, before: Some(summary(1)), after: Some(changed) }],
        relation_edges_read: 0,
        read_work: WitnessReadWork::default(),
    };
    let plan = plan_impact(
        &mut overlay,
        &empty_canonical(),
        DerivedDelta::default(),
        planning_witness(vec![edge]),
        &initial,
        ImpactAdmission::default(),
    )
    .expect("the change fits every budget");
    assert_eq!(plan.semantically_checked, vec![subject, test]);
    assert_eq!(plan.compiler_units, vec![subject, test]);
    assert_eq!(plan.tests, vec![test]);
    assert_eq!(plan.summary_owners, vec![test]);
    assert_eq!(
        plan.reasons,
        vec![
            ImpactReason { kind: ImpactReasonKind::DirectSemanticChange, source: subject, target: subject, relation: None },
            ImpactReason {
                kind: ImpactReasonKind::ValidationDependency,
                source: test,
                target: subject,
                relation: Some(RelationKind::TestSubject),
            },
            ImpactReason {
                kind: ImpactReasonKind::TestBehavior,
                source: test,
                target: subject,
                relation: Some(RelationKind::TestSubject),
            },
        ]
    );
    assert_eq!(plan.work.summary_edits_examined, 1);
    assert_eq!(plan.work.behavior_owners_visited, 1);
    assert_eq!(plan.work.summary_owners_examined, 1);
    assert!(plan.work.reverse_edges_visited >= 1);
}

#[test]
fn presentation_change_plans_no_semantic_check() {
    let subject = OwnerKey::Declaration(1);
    let edge = RelationEdge { source: local(3), kind: RelationKind::TestSubject, target: local(1) };
    let mut overlay = KernelOverlay::new(planning_snapshot(), empty_canonical());
    let mut cosmetic = summary(1);
    cosmetic.presentation = 9;
    let initial = SummaryDelta {
        selected: vec![],
        edits: vec![OwnerSummaryEdit { owner: subject, before: Some(summary(1)), after: Some(cosmetic) }],
        relation_edges_read: 0,
        read_work: WitnessReadWork::default(),
    };
    let plan = plan_impact(
        &mut overlay,
        &empty_canonical(),
        DerivedDelta::default(),
        planning_witness(vec![edge]),
        &initial,
        ImpactAdmission::default(),
    )
    .expect("the change fits every budget");
    assert!(plan.semantically_checked.is_empty());
    assert!(plan.tests.is_empty());
    assert!(plan.reasons.is_empty());
    assert_eq!(plan.work.summary_edits_examined, 1);
}

#[test]
fn summary_edit_budget_refuses_the_plan() {
    let subject = OwnerKey::Declaration(1);
    let mut overlay = KernelOverlay::new(planning_snapshot(), empty_canonical());
    let initial = SummaryDelta {
        selected: vec![],
        edits: vec![OwnerSummaryEdit { owner: subject, before: None, after: Some(summary(1)) }],
        relation_edges_read: 0,
        read_work: WitnessReadWork::default(),
    };
    let admission = ImpactAdmission { maximum_summary_edits: 0, ..ImpactAdmission::default() };
    let refused = plan_impact(
        &mut overlay,
        &empty_canonical(),
        DerivedDelta::default(),
        planning_witness(vec![]),
        &initial,
        admission,
    )
    .unwrap_err();
    assert_eq!(refused.code, "change_budget_impact_summary_edits");
}

#[test]
fn reasons_sort_into_canonical_order_without_repeats() {
    let a = OwnerKey::Declaration(1);
    let b = OwnerKey::Declaration(2);
    let direct = ImpactReason { kind: ImpactReasonKind::DirectSemanticChange, source: b, target: b, relation: None };
    let binding = ImpactReason { kind: ImpactReasonKind::DependencyBinding, source: a, target: a, relation: Some(RelationKind::PackageDependency) };
    let early = ImpactReason { kind: ImpactReasonKind::DirectSemanticChange, source: a, target: a, relation: None };
    let sorted = sort_reasons(&vec![binding, direct, early, binding, direct]);
    assert_eq!(sorted, vec![early, direct, binding]);
}

#[test]
fn dependent_summary_path_is_rebuilt_up_to_its_aggregating_ancestor() {
    let subject = OwnerKey::Declaration(1);
    let test = OwnerKey::Declaration(3);
    let suite = OwnerKey::Declaration(5);
    let edge = RelationEdge { source: local(3), kind: RelationKind::TestSubject, target: local(1) };
    let mut witness = planning_witness(vec![edge]);
    witness.ownership = vec![(
        test,
        OwnershipEntry { parent: OwnershipParent::Owner(suite), role: OwnershipRole::Aggregated },
    )];
    let mut overlay = KernelOverlay::new(planning_snapshot(), empty_canonical());
    let mut changed = summary(1);
    changed.implementation = 2;
    let initial = SummaryDelta {
        selected: vec![],
        edits: vec![OwnerSummaryEdit { owner: subject, before: Some(summary(1)), after: Some(changed) }],
        relation_edges_read: 0,
        read_work: WitnessReadWork::default(),
    };
    let plan = plan_impact(
        &mut overlay,
        &empty_canonical(),
        DerivedDelta::default(),
        witness,
        &initial,
        ImpactAdmission::default(),
    )
    .expect("the change fits every budget");
    assert_eq!(plan.summary_owners, vec![test, suite]);
    assert_eq!(plan.work.summary_owners_examined, 2);
}
