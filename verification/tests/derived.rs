use lkjscript_platform::base_read::WitnessReadWork;
use lkjscript_platform::delta::{CanonicalDelta, ExactEdit};
use lkjscript_platform::derived::{derive_local_delta, DerivedValueEdit, OwnerContribution, RecordContribution};
use lkjscript_platform::digest::ObjectDigest;
use lkjscript_platform::kernel::{OwnerKey, OwnerKind, OwnerRecord, PackageId, RepositoryId};
use lkjscript_platform::witness::{
    ExactOwnerKey, FullWitness, NamespaceKey, OwnershipEntry, OwnershipParent, OwnershipRole, RelationEdge,
    RelationEndpoint, RelationKind, ValidationWitnessManifest,
};

const PACKAGE: PackageId = PackageId(7);

fn local(id: u64) -> RelationEndpoint {
    RelationEndpoint::Owner(ExactOwnerKey { package: PACKAGE, owner: OwnerKey::Declaration(id) })
}

fn call(from: u64, to: u64) -> RelationEdge {
    RelationEdge { source: local(from), kind: RelationKind::FunctionCall, target: local(to) }
}

fn package_dependency(target: u64) -> RelationEdge {
    RelationEdge {
        source: RelationEndpoint::Package(PACKAGE),
        kind: RelationKind::PackageDependency,
        target: RelationEndpoint::Package(PackageId(target)),
    }
}

fn under(parent: u64, role: OwnershipRole) -> OwnershipEntry {
    OwnershipEntry { parent: OwnershipParent::Owner(OwnerKey::Declaration(parent)), role }
}

fn digest(word: u64) -> ObjectDigest {
    ObjectDigest { w0: word, w1: 0, w2: 0, w3: 0 }
}

fn witness(
    namespaces: Vec<(NamespaceKey, OwnerKey)>,
    ownership: Vec<(OwnerKey, OwnershipEntry)>,
    relations: Vec<RelationEdge>,
) -> FullWitness {
    FullWitness {
        manifest: ValidationWitnessManifest {
            repository_id: RepositoryId(1),
            package_id: PACKAGE,
            contract_version: 1,
            owner_summaries: 0,
        },
        namespaces,
        ownership,
        relations,
        reverse_relations: vec![],
        summaries: vec![],
        summary_bindings: vec![],
        test_dependencies: vec![],
    }
}

fn changed(id: u64) -> CanonicalDelta {
    let record = OwnerRecord { owner: OwnerKey::Declaration(id), kind: OwnerKind::PureFunction, content: 1 };
    CanonicalDelta {
        owners: vec![(OwnerKey::Declaration(id), ExactEdit { before: Some(digest(1)), after: Some((digest(2), record)) })],
        type_additions: vec![],
        dependencies: vec![(PackageId(9), ExactEdit { before: Some(digest(9)), after: None })],
        retirements: vec![],
    }
}

fn contribution(name: u64, role: OwnershipRole, relation: RelationEdge) -> RecordContribution {
    RecordContribution {
        namespace: Some(NamespaceKey { parent: OwnerKey::Declaration(1), name }),
        ownership: vec![(OwnerKey::Declaration(2), under(1, role))],
        relations: vec![relation],
    }
}

#[test]
fn renamed_and_detached_owner_derives_exact_witness_edits() {
    let old_name = NamespaceKey { parent: OwnerKey::Declaration(1), name: 5 };
    let new_name = NamespaceKey { parent: OwnerKey::Declaration(1), name: 6 };
    let mut base = witness(
        vec![(old_name, OwnerKey::Declaration(2))],
        vec![(OwnerKey::Declaration(2), under(1, OwnershipRole::Aggregated))],
        vec![call(2, 3), package_dependency(9)],
    );
    let changes = vec![OwnerContribution {
        owner: OwnerKey::Declaration(2),
        before: Some(contribution(5, OwnershipRole::Aggregated, call(2, 3))),
        after: Some(contribution(6, OwnershipRole::Independent, call(2, 4))),
    }];
    let derived = derive_local_delta(RepositoryId(1), PACKAGE, &changed(2), &changes, &mut base).expect("derivable");
    assert_eq!(
        derived.namespaces,
        vec![
            DerivedValueEdit { key: old_name, before: Some(OwnerKey::Declaration(2)), after: None },
            DerivedValueEdit { key: new_name, before: None, after: Some(OwnerKey::Declaration(2)) },
        ]
    );
    assert_eq!(
        derived.ownership,
        vec![DerivedValueEdit {
            key: OwnerKey::Declaration(2),
            before: Some(under(1, OwnershipRole::Aggregated)),
            after: Some(under(1, OwnershipRole::Independent)),
        }]
    );
    assert_eq!(derived.relations.removed, vec![call(2, 3), package_dependency(9)]);
    assert_eq!(derived.relations.added, vec![call(2, 4)]);
    assert_eq!(derived.summary_candidates, vec![OwnerKey::Declaration(1), OwnerKey::Declaration(2)]);
    assert_eq!(derived.ownership_steps, 3);
    assert_eq!(derived.relation_edges_examined, 2);
    assert_eq!(derived.read_work, WitnessReadWork { point_reads: 6, ..WitnessReadWork::default() });
}

#[test]
fn foreign_witness_is_refused_before_any_read() {
    let mut base = witness(vec![], vec![], vec![]);
    let refused = derive_local_delta(RepositoryId(1), PackageId(8), &changed(2), &vec![], &mut base).unwrap_err();
    assert_eq!(refused.code, "change_witness_authority");
    let refused = derive_local_delta(RepositoryId(2), PACKAGE, &changed(2), &vec![], &mut base).unwrap_err();
    assert_eq!(refused.code, "change_witness_authority");
}

#[test]
fn two_candidates_for_one_namespace_are_refused() {
    let mut base = witness(vec![], vec![], vec![package_dependency(9)]);
    let claim = |owner: u64| OwnerContribution {
        owner: OwnerKey::Declaration(owner),
        before: None,
        after: Some(RecordContribution {
            namespace: Some(NamespaceKey { parent: OwnerKey::Declaration(1), name: 5 }),
            ownership: vec![],
            relations: vec![],
        }),
    };
    let refused = derive_local_delta(RepositoryId(1), PACKAGE, &changed(2), &vec![claim(2), claim(3)], &mut base).unwrap_err();
    assert_eq!(refused.code, "change_namespace_candidate_duplicate");
}

#[test]
fn base_contributions_must_match_the_witness() {
    let mut base = witness(vec![], vec![], vec![call(2, 3), package_dependency(9)]);
    let changes = vec![OwnerContribution {
        owner: OwnerKey::Declaration(2),
        before: Some(contribution(5, OwnershipRole::Aggregated, call(2, 3))),
        after: None,
    }];
    let refused = derive_local_delta(RepositoryId(1), PACKAGE, &changed(2), &changes, &mut base).unwrap_err();
    assert_eq!(refused.code, "change_derived_before");
}

#[test]
fn removed_relations_must_be_in_the_witness() {
    let mut base = witness(vec![], vec![], vec![]);
    let refused = derive_local_delta(RepositoryId(1), PACKAGE, &changed(2), &vec![], &mut base).unwrap_err();
    assert_eq!(refused.code, "change_relation_before");
}

#[test]
fn cyclic_aggregating_ownership_is_refused() {
    let mut base = witness(
        vec![],
        vec![
            (OwnerKey::Declaration(2), under(1, OwnershipRole::Aggregated)),
            (OwnerKey::Declaration(1), under(2, OwnershipRole::Aggregated)),
        ],
        vec![package_dependency(9)],
    );
    let refused = derive_local_delta(RepositoryId(1), PACKAGE, &changed(2), &vec![], &mut base).unwrap_err();
    assert_eq!(refused.code, "change_summary_ownership_cycle");
}

#[test]
fn derived_edits_come_out_in_increasing_key_order() {
    let high = NamespaceKey { parent: OwnerKey::Declaration(1), name: 9 };
    let low = NamespaceKey { parent: OwnerKey::Declaration(1), name: 3 };
    let mut base = witness(vec![], vec![], vec![]);
    let record = |owner: u64, name: NamespaceKey, target: u64| RecordContribution {
        namespace: Some(name),
        ownership: vec![(OwnerKey::Declaration(owner), OwnershipEntry { parent: OwnershipParent::Package, role: OwnershipRole::Independent })],
        relations: vec![call(owner, target)],
    };
    let changes = vec![
        OwnerContribution { owner: OwnerKey::Declaration(5), before: None, after: Some(record(5, high, 8)) },
        OwnerContribution { owner: OwnerKey::Declaration(4), before: None, after: Some(record(4, low, 7)) },
    ];
    let delta = CanonicalDelta { owners: vec![], type_additions: vec![], dependencies: vec![], retirements: vec![] };
    let derived = derive_local_delta(RepositoryId(1), PACKAGE, &delta, &changes, &mut base).expect("derivable");
    let keys: Vec<NamespaceKey> = derived.namespaces.iter().map(|edit| edit.key).collect();
    assert_eq!(keys, vec![low, high]);
    let owners: Vec<OwnerKey> = derived.ownership.iter().map(|edit| edit.key).collect();
    assert_eq!(owners, vec![OwnerKey::Declaration(4), OwnerKey::Declaration(5)]);
    assert_eq!(derived.relations.added, vec![call(4, 7), call(5, 8)]);
    assert_eq!(derived.summary_candidates, vec![OwnerKey::Declaration(4), OwnerKey::Declaration(5)]);
}
