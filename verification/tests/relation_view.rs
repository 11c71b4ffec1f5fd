use lkjscript_platform::base_read::WitnessReadWork;
use lkjscript_platform::budget::MAXIMUM_RELATION_PREFIX_ITEMS;
use lkjscript_platform::derived::DerivedDelta;
use lkjscript_platform::diagnostic::DiagnosticClass;
use lkjscript_platform::kernel::{OwnerKey, PackageId, RepositoryId};
use lkjscript_platform::relation_view::{apply_delta, CandidateRelations, IndexedRelationDelta};
use lkjscript_platform::witness::{
    ExactOwnerKey, FullWitness, RelationEdge, RelationEndpoint, RelationKind, ValidationWitnessManifest,
};

fn empty_witness(package: PackageId) -> FullWitness {
    FullWitness {
        manifest: ValidationWitnessManifest {
            repository_id: RepositoryId(1),
            package_id: package,
            contract_version: 1,
            owner_summaries: 0,
        },
        namespaces: vec![],
        ownership: vec![],
        relations: vec![],
        reverse_relations: vec![],
        summaries: vec![],
        summary_bindings: vec![],
        test_dependencies: vec![],
    }
}

fn endpoint(package: PackageId, id: u64) -> RelationEndpoint {
    RelationEndpoint::Owner(ExactOwnerKey { package, owner: OwnerKey::Declaration(id) })
}

#[test]
fn candidate_relation_delta_index_is_bounded_charged_once_and_preserves_fanout() {
    let package = PackageId(7);
    let witness = empty_witness(package);
    let selected_owner = OwnerKey::Declaration(500);
    let selected_source = endpoint(package, 500);
    let mut derived = DerivedDelta::default();
    for ordinal in 0..32 {
        derived.relations.added.push(RelationEdge {
            source: endpoint(package, 1_000 + ordinal),
            kind: RelationKind::FunctionCall,
            target: selected_source,
        });
    }
    let mut bounded = CandidateRelations::new(package, derived.clone(), witness.clone());
    let error = bounded
        .outgoing(selected_owner, 2, MAXIMUM_RELATION_PREFIX_ITEMS as u64)
        .expect_err("delta indexing must reject before exceeding the edge budget");
    assert_eq!(error.class, DiagnosticClass::Resource);
    assert_eq!(error.code, "change_budget_relation_edges");

    let mut indexed = CandidateRelations::new(package, derived.clone(), witness.clone());
    let first_read = indexed
        .outgoing(selected_owner, 32, MAXIMUM_RELATION_PREFIX_ITEMS as u64)
        .expect("the complete delta index accepts an exact edge-budget fit");
    assert_eq!(first_read.edges_examined, 32);
    assert!(first_read.edges.is_empty());
    let indexed_owner = OwnerKey::Declaration(1_000);
    let second_read = indexed
        .outgoing(indexed_owner, 2, MAXIMUM_RELATION_PREFIX_ITEMS as u64)
        .expect("a later endpoint reads only its indexed delta edge");
    assert_eq!(second_read.edges_examined, 1);
    assert_eq!(second_read.edges.len(), 1);

    let first = RelationEdge {
        source: selected_source,
        kind: RelationKind::FunctionCall,
        target: endpoint(package, 2_001),
    };
    let second = RelationEdge { target: endpoint(package, 2_002), ..first };
    let empty = IndexedRelationDelta { removed: vec![], added: vec![] };
    assert_eq!(
        apply_delta(vec![first, second], empty, "change_relation_test_remove", 2, 1, 0)
            .expect_err("the second endpoint edge must exceed one-edge fanout")
            .code,
        "change_budget_relation_fanout"
    );
}

#[test]
fn candidate_relations_apply_removals_and_additions_to_base_edges() {
    let package = PackageId(7);
    let mut witness = empty_witness(package);
    let kept = RelationEdge { source: endpoint(package, 1), kind: RelationKind::TypeReference, target: endpoint(package, 2) };
    let dropped = RelationEdge { source: endpoint(package, 1), kind: RelationKind::FunctionCall, target: endpoint(package, 3) };
    let added = RelationEdge { source: endpoint(package, 1), kind: RelationKind::ValueReference, target: endpoint(package, 4) };
    witness.relations = vec![kept, dropped];
    witness.reverse_relations = vec![kept, dropped];
    let mut derived = DerivedDelta::default();
    derived.relations.removed.push(dropped);
    derived.relations.added.push(added);
    let mut view = CandidateRelations::new(package, derived, witness);
    let read = view.outgoing(OwnerKey::Declaration(1), 16, 16).expect("candidate outgoing edges");
    assert_eq!(read.edges, vec![kept, added]);
    assert_eq!(read.edges_examined, 2 + 2 + 1 + 1);
    assert!(view.work().point_reads >= 1);
    let again = view.outgoing(OwnerKey::Declaration(1), 16, 16).expect("cached base edges");
    assert_eq!(again.edges_examined, 2 + 1 + 1);

    let incoming = view.incoming(OwnerKey::Declaration(3), 16, 16).expect("dropped target");
    assert!(incoming.edges.is_empty());
    let package_edges = view.incoming_package(package, 16, 16).expect("package edges");
    assert_eq!(package_edges.edges, vec![kept, added]);
}

#[test]
fn candidate_relations_refuse_exhausted_budgets_and_absent_removals() {
    let package = PackageId(7);
    let witness = empty_witness(package);
    let mut view = CandidateRelations::new(package, DerivedDelta::default(), witness.clone());
    assert_eq!(view.outgoing(OwnerKey::Declaration(1), 0, 4).expect_err("no edges").code, "change_budget_relation_edges");
    assert_eq!(view.outgoing(OwnerKey::Declaration(1), 4, 0).expect_err("no fanout").code, "change_budget_relation_fanout");
    assert_eq!(view.work(), WitnessReadWork::default());

    let absent = RelationEdge { source: endpoint(package, 1), kind: RelationKind::TypeReference, target: endpoint(package, 2) };
    let delta = IndexedRelationDelta { removed: vec![absent], added: vec![] };
    let error = apply_delta(vec![], delta, "change_relation_forward_remove", 4, 4, 0).expect_err("absent edge");
    assert_eq!(error.class, DiagnosticClass::Corrupt);
    assert_eq!(error.code, "change_relation_forward_remove");

    let delta = IndexedRelationDelta { removed: vec![], added: vec![absent, absent] };
    let read = apply_delta(vec![], delta, "change_relation_forward_remove", 4, 1, 1).expect("duplicate addition");
    assert_eq!(read.edges, vec![absent]);
    assert_eq!(read.edges_examined, 3);
}
