use lkjscript_platform::base_read::{BudgetedCanonicalBase, CanonicalReadWork};
use lkjscript_platform::budget::CanonicalReadAdmission;
use lkjscript_platform::delta::{CanonicalDelta, PrimitiveEdit};
use lkjscript_platform::diagnostic::DiagnosticClass;
use lkjscript_platform::digest::ObjectDigest;
use lkjscript_platform::kernel::{
    encode_dependency, encode_owner, encode_retirement, encode_type_object, DependencyRecord, KernelSnapshot, OwnerKey,
    OwnerKind, OwnerRecord, PackageId, RepositoryId, RetirementRecord, SemanticRoot, TypeObject,
};
use lkjscript_platform::overlay::KernelOverlay;

fn digest(word: u64) -> ObjectDigest {
    ObjectDigest { w0: word, w1: 0, w2: 0, w3: 0 }
}

fn record(id: u64, content: u64) -> OwnerRecord {
    OwnerRecord { owner: OwnerKey::Declaration(id), kind: OwnerKind::PureFunction, content }
}

fn dependency(package: u64, content: u64) -> DependencyRecord {
    DependencyRecord { package: PackageId(package), package_revision: digest(package), content }
}

fn snapshot() -> KernelSnapshot {
    KernelSnapshot {
        root: SemanticRoot { repository_id: RepositoryId(1), package_id: PackageId(7), owners: 2, dependencies: 1, retirements: 1 },
        owners: vec![record(1, 10), record(2, 20)],
        types: vec![],
        dependency_types: vec![],
        dependency_interfaces: vec![],
        dependencies: vec![dependency(9, 90)],
        retirements: vec![RetirementRecord { owner: OwnerKey::Declaration(5), content: 50 }],
    }
}

#[test]
fn normalization_records_exact_edits() {
    let base = snapshot();
    let inserted = record(3, 30);
    let replaced = record(1, 11);
    let object = TypeObject { form: 2, content: 7 };
    let edits = vec![
        PrimitiveEdit::InsertOwner { record: inserted },
        PrimitiveEdit::ReplaceOwner { expected: encode_owner(&record(1, 10)).0, record: replaced },
        PrimitiveEdit::DeleteOwner { owner: OwnerKey::Declaration(2), expected: encode_owner(&record(2, 20)).0 },
        PrimitiveEdit::AddTypeObject { digest: encode_type_object(&object).0, object },
        PrimitiveEdit::DeleteDependency { package: PackageId(9), expected: encode_dependency(&dependency(9, 90)).0 },
    ];
    let delta = CanonicalDelta::normalize(&base, edits).expect("exact edits");
    assert_eq!(delta.changed_owner_count(), 3);
    assert!(!delta.is_empty());
    let keys: Vec<OwnerKey> = delta.owners.iter().map(|(key, _)| *key).collect();
    assert_eq!(keys, vec![OwnerKey::Declaration(1), OwnerKey::Declaration(2), OwnerKey::Declaration(3)]);
    assert_eq!(delta.owners[2].1.before, None);
    assert_eq!(delta.owners[2].1.after, Some((encode_owner(&inserted).0, inserted)));
    assert_eq!(delta.owners[1].1.after, None);
    assert_eq!(delta.type_additions, vec![(encode_type_object(&object).0, object)]);
    assert_eq!(delta.dependencies[0].1.after, None);

    let mut overlay = KernelOverlay::new(snapshot(), delta);
    assert_eq!(overlay.owner(OwnerKey::Declaration(3)).unwrap(), Some(inserted));
    assert_eq!(overlay.owner(OwnerKey::Declaration(1)).unwrap(), Some(replaced));
    assert_eq!(overlay.owner(OwnerKey::Declaration(2)).unwrap(), None);
    assert_eq!(overlay.base_owner(OwnerKey::Declaration(2)).unwrap(), Some(record(2, 20)));
    assert_eq!(overlay.type_object(encode_type_object(&object).0).unwrap(), Some(object));
    assert_eq!(overlay.dependency(PackageId(9)).unwrap(), None);
    assert_eq!(overlay.package_interface_owner(PackageId(9), OwnerKey::Declaration(1)).unwrap(), None);
    assert_eq!(overlay.retirement(OwnerKey::Declaration(5)).unwrap().map(|r| r.content), Some(50));
    assert_eq!(overlay.owner_count(), 2);
    assert_eq!(overlay.dependency_count(), 0);
    assert_eq!(overlay.retirement_count(), 1);
    assert_eq!(overlay.package_id(), PackageId(7));
    assert_eq!(overlay.exact_revision(), None);
    assert_eq!(overlay.work().point_reads, 2);
}

#[test]
fn normalization_refuses_each_broken_precondition() {
    let base = snapshot();
    let cases: Vec<(Vec<PrimitiveEdit>, &str)> = vec![
        (vec![PrimitiveEdit::InsertOwner { record: record(1, 1) }], "change_owner_present"),
        (vec![PrimitiveEdit::DeleteOwner { owner: OwnerKey::Declaration(8), expected: digest(0) }], "change_owner_missing"),
        (vec![PrimitiveEdit::ReplaceOwner { expected: digest(0), record: record(1, 12) }], "change_exact_precondition"),
        (
            vec![
                PrimitiveEdit::InsertOwner { record: record(3, 1) },
                PrimitiveEdit::InsertOwner { record: record(3, 2) },
            ],
            "change_duplicate_primitive",
        ),
        (vec![PrimitiveEdit::InsertDependency { record: dependency(9, 1) }], "change_dependency_present"),
        (vec![PrimitiveEdit::DeleteDependency { package: PackageId(4), expected: digest(0) }], "change_dependency_missing"),
        (vec![PrimitiveEdit::InsertRetirement { record: RetirementRecord { owner: OwnerKey::Declaration(5), content: 1 } }], "change_retirement_present"),
        (vec![PrimitiveEdit::DeleteRetirement { owner: OwnerKey::Declaration(6), expected: digest(0) }], "change_retirement_missing"),
        (vec![PrimitiveEdit::AddTypeObject { digest: digest(1), object: TypeObject { form: 1, content: 1 } }], "change_exact_precondition"),
        (vec![PrimitiveEdit::InsertRetirement { record: RetirementRecord { owner: OwnerKey::Declaration(1), content: 1 } }], "change_live_retired_overlap"),
    ];
    for (edits, code) in cases {
        let error = CanonicalDelta::normalize(&base, edits).expect_err(code);
        assert_eq!(error.code, code);
        assert_eq!(error.class, DiagnosticClass::Semantic);
    }
}

#[test]
fn type_collision_is_corrupt_and_identical_type_is_no_edit() {
    let object = TypeObject { form: 1, content: 5 };
    let other = TypeObject { form: 1, content: 6 };
    let bound = encode_type_object(&object).0;
    let mut base = snapshot();
    base.types.push((bound, object));
    let unchanged = CanonicalDelta::normalize(&base, vec![PrimitiveEdit::AddTypeObject { digest: bound, object }]).expect("present type");
    assert!(unchanged.is_empty());
    base.types[0].1 = other;
    let error = CanonicalDelta::normalize(&base, vec![PrimitiveEdit::AddTypeObject { digest: bound, object }]).expect_err("collision");
    assert_eq!(error.code, "change_type_collision");
    assert_eq!(error.class, DiagnosticClass::Corrupt);
}

#[test]
fn unchanged_replacement_and_empty_request_normalize_to_nothing() {
    let base = snapshot();
    assert!(CanonicalDelta::normalize(&base, vec![]).expect("empty").is_empty());
    let same = PrimitiveEdit::ReplaceRetirement {
        expected: encode_retirement(&base.retirements[0]).0,
        record: base.retirements[0],
    };
    assert!(CanonicalDelta::normalize(&base, vec![same]).expect("identity replacement").is_empty());
}

#[test]
fn normalization_from_a_reader_reports_revision_and_work() {
    let mut base = snapshot();
    let normalization = CanonicalDelta::normalize_from(
        &mut base,
        vec![PrimitiveEdit::InsertOwner { record: record(3, 30) }],
    )
    .expect("normalization");
    assert_eq!(normalization.base_revision, None);
    assert_eq!(normalization.work, CanonicalReadWork { point_reads: 2, ..CanonicalReadWork::default() });
}

#[test]
fn materialized_oracle_answers_as_the_overlay() {
    let base = snapshot();
    let inserted = record(3, 30);
    let edits = vec![
        PrimitiveEdit::InsertOwner { record: inserted },
        PrimitiveEdit::DeleteOwner { owner: OwnerKey::Declaration(2), expected: encode_owner(&record(2, 20)).0 },
        PrimitiveEdit::InsertDependency { record: dependency(4, 40) },
    ];
    let delta = CanonicalDelta::normalize(&base, edits).expect("exact edits");
    let overlay = KernelOverlay::new(snapshot(), delta);
    let mut visited = vec![(OwnerKey::Module(0), OwnerRecord { owner: OwnerKey::Module(0), kind: OwnerKind::Module, content: 0 })];
    overlay.for_each_owner(&mut visited);
    assert_eq!(visited.len(), 3);
    assert_eq!(visited[1], (OwnerKey::Declaration(1), record(1, 10)));
    assert_eq!(visited[2], (OwnerKey::Declaration(3), inserted));
    let oracle = overlay.materialize_logical_oracle();
    assert_eq!(oracle.owners, vec![record(1, 10), inserted]);
    assert_eq!(oracle.dependencies, vec![dependency(9, 90), dependency(4, 40)]);
    assert_eq!(oracle.root.owners, 2);
    assert_eq!(oracle.root.dependencies, 2);
    assert_eq!(oracle.root.retirements, 1);
}

#[test]
fn budgeted_normalization_gives_the_same_refusals() {
    let cases: Vec<(Vec<PrimitiveEdit>, &str)> = vec![
        (
            vec![
                PrimitiveEdit::InsertOwner { record: record(3, 1) },
                PrimitiveEdit::InsertOwner { record: record(3, 2) },
            ],
            "change_duplicate_primitive",
        ),
        (vec![PrimitiveEdit::InsertOwner { record: record(1, 1) }], "change_owner_present"),
        (vec![PrimitiveEdit::ReplaceOwner { expected: digest(0), record: record(1, 12) }], "change_exact_precondition"),
    ];
    for (edits, code) in cases {
        let mut base = BudgetedCanonicalBase::new(snapshot(), CanonicalReadAdmission::unbounded(), CanonicalReadWork::default())
            .expect("unbounded admission");
        let error = CanonicalDelta::normalize_from(&mut base, edits).expect_err(code);
        assert_eq!(error.code, code);
        assert_eq!(error.class, DiagnosticClass::Semantic);
    }
    let mut starved = BudgetedCanonicalBase::new(
        snapshot(),
        CanonicalReadAdmission { maximum_point_reads: 0, ..CanonicalReadAdmission::unbounded() },
        CanonicalReadWork::default(),
    )
    .expect("valid admission");
    let error = CanonicalDelta::normalize_from(&mut starved, vec![PrimitiveEdit::InsertOwner { record: record(3, 1) }])
        .expect_err("no point read");
    assert_eq!(error.code, "change_budget_canonical_point_reads");
    assert_eq!(error.class, DiagnosticClass::Resource);
}

#[test]
fn overlay_owners_are_visited_in_increasing_key_order() {
    let base = snapshot();
    let lowest = record(0, 5);
    let delta = CanonicalDelta::normalize(&base, vec![PrimitiveEdit::InsertOwner { record: lowest }]).expect("insert");
    let overlay = KernelOverlay::new(snapshot(), delta);
    let mut visited = Vec::new();
    overlay.for_each_owner(&mut visited);
    let keys: Vec<OwnerKey> = visited.iter().map(|(key, _)| *key).collect();
    assert_eq!(keys, vec![OwnerKey::Declaration(0), OwnerKey::Declaration(1), OwnerKey::Declaration(2)]);
    assert_eq!(visited[0].1, lowest);
}

#[test]
fn normalized_maps_are_held_in_increasing_key_order() {
    let base = snapshot();
    let edits = vec![
        PrimitiveEdit::InsertDependency { record: dependency(4, 40) },
        PrimitiveEdit::InsertDependency { record: dependency(2, 20) },
        PrimitiveEdit::InsertOwner { record: record(8, 80) },
        PrimitiveEdit::InsertOwner { record: record(3, 30) },
    ];
    let delta = CanonicalDelta::normalize(&base, edits).expect("exact edits");
    let packages: Vec<PackageId> = delta.dependencies.iter().map(|(package, _)| *package).collect();
    assert_eq!(packages, vec![PackageId(2), PackageId(4)]);
    let owners: Vec<OwnerKey> = delta.owners.iter().map(|(owner, _)| *owner).collect();
    assert_eq!(owners, vec![OwnerKey::Declaration(3), OwnerKey::Declaration(8)]);
}
