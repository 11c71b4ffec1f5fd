use lkjscript_platform::base_read::{
    BoundOwnerSummary, BudgetedCanonicalBase, CanonicalAuthority, WitnessEvidence, BudgetedWitnessBase, CanonicalBaseRead, CanonicalRead,
    CanonicalReadWork, WitnessBaseRead, WitnessRead, WitnessReadWork, WitnessRelationRead,
    WitnessTestDependencyRead, READ_ADMISSION_DECODED_RECORDS, READ_ADMISSION_UNSUPPORTED,
};
use lkjscript_platform::budget::{CanonicalReadAdmission, WitnessReadAdmission};
use lkjscript_platform::diagnostic::{Diagnostic, DiagnosticClass};
use lkjscript_platform::digest::ObjectDigest;
use lkjscript_platform::kernel::{
    DependencyRecord, KernelSnapshot, OwnerKey, OwnerKind, OwnerRecord, PackageId, PackageInterfaceRecord,
    RepositoryId, RetirementRecord, RevisionId, SemanticRoot, TypeObject,
};
use lkjscript_platform::witness::{
    encode_owner_summary, ExactOwnerKey, FullWitness, NamespaceKey, OwnerSummary, OwnershipEntry,
    OwnershipParent, OwnershipRole, RelationEdge, RelationEndpoint, RelationKind, TestDependency,
    ValidationWitnessManifest,
};

fn digest(word: u64) -> ObjectDigest {
    ObjectDigest { w0: word, w1: 0, w2: 0, w3: 0 }
}

fn snapshot() -> KernelSnapshot {
    KernelSnapshot {
        root: SemanticRoot {
            repository_id: RepositoryId(1),
            package_id: PackageId(7),
            owners: 2,
            dependencies: 0,
            retirements: 0,
        },
        owners: vec![
            OwnerRecord { owner: OwnerKey::Module(1), kind: OwnerKind::Module, content: 10 },
            OwnerRecord { owner: OwnerKey::Declaration(2), kind: OwnerKind::PureFunction, content: 20 },
        ],
        types: vec![(digest(3), TypeObject { form: 1, content: 30 })],
        dependency_types: vec![],
        dependency_interfaces: vec![],
        dependencies: vec![],
        retirements: vec![],
    }
}

fn summary(seed: u64) -> OwnerSummary {
    OwnerSummary {
        kind: OwnerKind::PureFunction,
        semantic_interface: seed,
        implementation: seed + 1,
        type_digest: seed + 2,
        effect: seed + 3,
        capability: seed + 4,
        relations: seed + 5,
        presentation: seed + 6,
        test: seed + 7,
        validation_dependencies: seed + 8,
    }
}

fn endpoint(package: u64, owner: OwnerKey) -> RelationEndpoint {
    RelationEndpoint::Owner(ExactOwnerKey { package: PackageId(package), owner })
}

fn witness() -> FullWitness {
    let module = OwnerKey::Module(1);
    let function = OwnerKey::Declaration(2);
    let test = OwnerKey::Declaration(9);
    let owned = summary(100);
    let (bound, _) = encode_owner_summary(&owned);
    let call = RelationEdge {
        source: endpoint(7, function),
        kind: RelationKind::FunctionCall,
        target: endpoint(7, module),
    };
    let reference = RelationEdge {
        source: endpoint(7, function),
        kind: RelationKind::TypeReference,
        target: endpoint(7, module),
    };
    let foreign = RelationEdge {
        source: endpoint(8, OwnerKey::Declaration(4)),
        kind: RelationKind::ValueReference,
        target: endpoint(7, function),
    };
    FullWitness {
        manifest: ValidationWitnessManifest {
            repository_id: RepositoryId(1),
            package_id: PackageId(7),
            contract_version: 1,
            owner_summaries: 1,
        },
        namespaces: vec![(NamespaceKey { parent: module, name: 55 }, function)],
        ownership: vec![
            (function, OwnershipEntry { parent: OwnershipParent::Owner(module), role: OwnershipRole::Aggregated }),
            (module, OwnershipEntry { parent: OwnershipParent::Package, role: OwnershipRole::Independent }),
        ],
        relations: vec![reference, call],
        reverse_relations: vec![reference, call, foreign],
        summaries: vec![(function, owned)],
        summary_bindings: vec![(function, bound)],
        test_dependencies: vec![(
            test,
            vec![
                TestDependency { test, dependency: ExactOwnerKey { package: PackageId(7), owner: function } },
                TestDependency { test, dependency: ExactOwnerKey { package: PackageId(7), owner: module } },
            ],
        )],
    }
}

struct CountingCanonical {
    base: KernelSnapshot,
    admitted_calls: u64,
    raw_type_calls: u64,
    last_admission: Option<CanonicalReadAdmission>,
    failure: Option<&'static str>,
}

impl CanonicalBaseRead for CountingCanonical {
    fn authority(&self) -> CanonicalAuthority {
        self.base.authority()
    }

    fn reads_are_total(&self) -> bool {
        false
    }

    fn read_refusal(&self, _d: Diagnostic) -> bool {
        true
    }

    fn owner_read_work(&self, _owner: OwnerKey) -> CanonicalReadWork {
        CanonicalReadWork::default()
    }

    fn owner_admitted_work(&self, _owner: OwnerKey, _admission: CanonicalReadAdmission) -> CanonicalReadWork {
        CanonicalReadWork::default()
    }

    fn semantic_root(&self) -> SemanticRoot {
        self.base.semantic_root()
    }

    fn repository_id(&self) -> RepositoryId {
        self.base.repository_id()
    }

    fn package_id(&self) -> PackageId {
        self.base.package_id()
    }

    fn exact_revision(&self) -> Option<RevisionId> {
        self.base.exact_revision()
    }

    fn owner_count(&self) -> u64 {
        self.base.owner_count()
    }

    fn dependency_count(&self) -> u64 {
        self.base.dependency_count()
    }

    fn retirement_count(&self) -> u64 {
        self.base.retirement_count()
    }

    fn read_owner(&mut self, owner: OwnerKey) -> Result<CanonicalRead<Option<OwnerRecord>>, Diagnostic> {
        self.base.read_owner(owner)
    }

    fn read_type_object(&mut self, digest: ObjectDigest) -> Result<CanonicalRead<Option<TypeObject>>, Diagnostic> {
        self.raw_type_calls = self.raw_type_calls.saturating_add(1);
        self.base.read_type_object(digest)
    }

    fn read_package_interface_owner(
        &mut self,
        dependency: &DependencyRecord,
        owner: OwnerKey,
    ) -> Result<CanonicalRead<Option<PackageInterfaceRecord>>, Diagnostic> {
        self.base.read_package_interface_owner(dependency, owner)
    }

    fn read_dependency(&mut self, package: PackageId) -> Result<CanonicalRead<Option<DependencyRecord>>, Diagnostic> {
        self.base.read_dependency(package)
    }

    fn read_retirement(&mut self, owner: OwnerKey) -> Result<CanonicalRead<Option<RetirementRecord>>, Diagnostic> {
        self.base.read_retirement(owner)
    }

    fn read_owner_admitted(
        &mut self,
        owner: OwnerKey,
        admission: CanonicalReadAdmission,
    ) -> Result<CanonicalRead<Option<OwnerRecord>>, Diagnostic> {
        self.admitted_calls = self.admitted_calls.saturating_add(1);
        self.last_admission = Some(admission);
        if let Some(code) = self.failure {
            return Err(Diagnostic::new(
                DiagnosticClass::Resource,
                code,
                "injected admitted canonical failure".to_string(),
            ));
        }
        self.base.read_owner_admitted(owner, admission)
    }
}

struct CountingWitness {
    base: FullWitness,
    admitted_calls: u64,
    raw_ownership_calls: u64,
    last_admission: Option<WitnessReadAdmission>,
    failure: Option<&'static str>,
}

impl WitnessBaseRead for CountingWitness {
    fn evidence(&self) -> WitnessEvidence {
        self.base.evidence()
    }

    fn witness_reads_are_total(&self) -> bool {
        false
    }

    fn read_refusal(&self, _d: Diagnostic) -> bool {
        true
    }

    fn witness_manifest(&self) -> ValidationWitnessManifest {
        self.base.witness_manifest()
    }

    fn witness_repository_id(&self) -> RepositoryId {
        self.base.witness_repository_id()
    }

    fn witness_package_id(&self) -> PackageId {
        self.base.witness_package_id()
    }

    fn witness_contract_is_current(&self) -> bool {
        self.base.witness_contract_is_current()
    }

    fn owner_summary_count(&self) -> u64 {
        self.base.owner_summary_count()
    }

    fn read_namespace(&mut self, key: &NamespaceKey) -> Result<WitnessRead<Option<OwnerKey>>, Diagnostic> {
        self.base.read_namespace(key)
    }

    fn read_ownership(&mut self, owner: OwnerKey) -> Result<WitnessRead<Option<OwnershipEntry>>, Diagnostic> {
        self.raw_ownership_calls = self.raw_ownership_calls.saturating_add(1);
        self.base.read_ownership(owner)
    }

    fn contains_forward_relation(&mut self, edge: RelationEdge) -> Result<WitnessRead<bool>, Diagnostic> {
        self.base.contains_forward_relation(edge)
    }

    fn read_owner_summary(&mut self, owner: OwnerKey) -> Result<WitnessRead<Option<BoundOwnerSummary>>, Diagnostic> {
        self.base.read_owner_summary(owner)
    }

    fn read_outgoing_relations(
        &mut self,
        owner: OwnerKey,
        maximum_items: usize,
    ) -> Result<WitnessRead<WitnessRelationRead>, Diagnostic> {
        self.base.read_outgoing_relations(owner, maximum_items)
    }

    fn read_incoming_relations(
        &mut self,
        owner: OwnerKey,
        maximum_items: usize,
    ) -> Result<WitnessRead<WitnessRelationRead>, Diagnostic> {
        self.base.read_incoming_relations(owner, maximum_items)
    }

    fn read_incoming_relations_of_kind(
        &mut self,
        owner: OwnerKey,
        kind: RelationKind,
        maximum_items: usize,
    ) -> Result<WitnessRead<WitnessRelationRead>, Diagnostic> {
        self.base.read_incoming_relations_of_kind(owner, kind, maximum_items)
    }

    fn read_incoming_package_relations(
        &mut self,
        package: PackageId,
        maximum_items: usize,
    ) -> Result<WitnessRead<WitnessRelationRead>, Diagnostic> {
        self.base.read_incoming_package_relations(package, maximum_items)
    }

    fn read_test_dependencies(
        &mut self,
        test: OwnerKey,
        maximum_items: usize,
    ) -> Result<WitnessRead<WitnessTestDependencyRead>, Diagnostic> {
        self.base.read_test_dependencies(test, maximum_items)
    }

    fn read_namespace_admitted(
        &mut self,
        key: &NamespaceKey,
        admission: WitnessReadAdmission,
    ) -> Result<WitnessRead<Option<OwnerKey>>, Diagnostic> {
        self.admitted_calls = self.admitted_calls.saturating_add(1);
        self.last_admission = Some(admission);
        if let Some(code) = self.failure {
            return Err(Diagnostic::new(
                DiagnosticClass::Resource,
                code,
                "injected admitted witness failure".to_string(),
            ));
        }
        self.base.read_namespace_admitted(key, admission)
    }
}

fn canonical_source(failure: Option<&'static str>) -> CountingCanonical {
    CountingCanonical {
        base: snapshot(),
        admitted_calls: 0,
        raw_type_calls: 0,
        last_admission: None,
        failure,
    }
}

fn witness_source(failure: Option<&'static str>) -> CountingWitness {
    CountingWitness {
        base: witness(),
        admitted_calls: 0,
        raw_ownership_calls: 0,
        last_admission: None,
        failure,
    }
}

#[test]
fn canonical_zero_point_rejects_before_source_and_cumulative_work_includes_initial() {
    let owner = snapshot().owners[0].owner;

    let mut zero = BudgetedCanonicalBase::new(
        canonical_source(None),
        CanonicalReadAdmission { maximum_point_reads: 0, ..CanonicalReadAdmission::unbounded() },
        CanonicalReadWork::default(),
    )
    .expect("valid zero-point admission");
    let error = zero.read_owner(owner).expect_err("zero point budget must reject");
    assert_eq!(error.code, "change_budget_canonical_point_reads");
    assert_eq!(zero.base().admitted_calls, 0);
    assert_eq!(zero.work(), CanonicalReadWork::default());

    let initial = CanonicalReadWork { point_reads: 1, map_pages_read: 2, bytes_read: 3, ..CanonicalReadWork::default() };
    let mut admitted = BudgetedCanonicalBase::new(
        canonical_source(None),
        CanonicalReadAdmission {
            maximum_point_reads: 2,
            maximum_map_pages: 7,
            maximum_bytes: 11,
            ..CanonicalReadAdmission::unbounded()
        },
        initial,
    )
    .expect("valid cumulative admission");
    admitted.read_owner(owner).expect("one remaining read");
    assert_eq!(admitted.work().point_reads, 2);
    assert_eq!(admitted.base().admitted_calls, 1);
    let source_admission = admitted.base().last_admission.expect("source admission");
    assert_eq!(source_admission.maximum_point_reads, 1);
    assert_eq!(source_admission.maximum_map_pages, 5);
    assert_eq!(source_admission.maximum_bytes, 8);
    let error = admitted
        .read_owner(owner)
        .expect_err("cumulative point budget must reject a second source call");
    assert_eq!(error.code, "change_budget_canonical_point_reads");
    assert_eq!(admitted.base().admitted_calls, 1);
    assert_eq!(admitted.work().point_reads, 2);
}

#[test]
fn canonical_default_admitted_source_fails_without_calling_raw_reader() {
    let digest = snapshot().types[0].0;
    let mut admitted = BudgetedCanonicalBase::new(
        canonical_source(None),
        CanonicalReadAdmission::unbounded(),
        CanonicalReadWork::default(),
    )
    .expect("unbounded wrapper");
    let error = admitted
        .read_type_object(digest)
        .expect_err("missing admitted source implementation must fail closed");
    assert_eq!(error.code, READ_ADMISSION_UNSUPPORTED);
    assert_eq!(admitted.base().raw_type_calls, 0);
}

#[test]
fn canonical_wrapper_maps_generic_lower_read_exhaustion() {
    let owner = snapshot().owners[0].owner;
    for (generic, expected) in [
        ("persistent_map_admission_pages_read", "change_budget_canonical_map_pages"),
        ("persistent_map_admission_entries_visited", "change_budget_canonical_map_entries"),
        ("persistent_map_admission_bytes_read", "change_budget_canonical_bytes"),
        ("object_read_catalog_lookups_exhausted", "change_budget_canonical_catalog_lookups"),
        ("object_read_objects_exhausted", "change_budget_canonical_objects"),
        ("object_read_bytes_exhausted", "change_budget_canonical_bytes"),
        (READ_ADMISSION_DECODED_RECORDS, "change_budget_canonical_decoded_records"),
    ] {
        let mut admitted = BudgetedCanonicalBase::new(
            canonical_source(Some(generic)),
            CanonicalReadAdmission::unbounded(),
            CanonicalReadWork::default(),
        )
        .expect("unbounded wrapper");
        let error = admitted.read_owner(owner).expect_err("injected lower admission failure");
        assert_eq!(error.code, expected);
        assert_eq!(admitted.base().admitted_calls, 1);
        assert_eq!(admitted.work(), CanonicalReadWork::default());
    }
}

#[test]
fn witness_zero_point_rejects_before_source_and_cumulative_work_includes_initial() {
    let key = witness().namespaces[0].0;

    let mut zero = BudgetedWitnessBase::new(
        witness_source(None),
        WitnessReadAdmission { maximum_point_reads: 0, ..WitnessReadAdmission::unbounded() },
        WitnessReadWork::default(),
    )
    .expect("valid zero-point admission");
    let error = zero.read_namespace(&key).expect_err("zero point budget must reject");
    assert_eq!(error.code, "change_budget_witness_point_reads");
    assert_eq!(zero.base().admitted_calls, 0);
    assert_eq!(zero.work(), WitnessReadWork::default());

    let initial = WitnessReadWork { point_reads: 1, map_entries_visited: 2, bytes_read: 3, ..WitnessReadWork::default() };
    let mut admitted = BudgetedWitnessBase::new(
        witness_source(None),
        WitnessReadAdmission {
            maximum_point_reads: 2,
            maximum_map_entries: 7,
            maximum_bytes: 11,
            ..WitnessReadAdmission::unbounded()
        },
        initial,
    )
    .expect("valid cumulative admission");
    admitted.read_namespace(&key).expect("one remaining read");
    assert_eq!(admitted.work().point_reads, 2);
    assert_eq!(admitted.base().admitted_calls, 1);
    let source_admission = admitted.base().last_admission.expect("source admission");
    assert_eq!(source_admission.maximum_point_reads, 1);
    assert_eq!(source_admission.maximum_map_entries, 5);
    assert_eq!(source_admission.maximum_bytes, 8);
    let error = admitted
        .read_namespace(&key)
        .expect_err("cumulative point budget must reject a second source call");
    assert_eq!(error.code, "change_budget_witness_point_reads");
    assert_eq!(admitted.base().admitted_calls, 1);
    assert_eq!(admitted.work().point_reads, 2);
}

#[test]
fn witness_default_admitted_source_fails_without_calling_raw_reader() {
    let owner = witness().ownership[0].0;
    let mut admitted = BudgetedWitnessBase::new(
        witness_source(None),
        WitnessReadAdmission::unbounded(),
        WitnessReadWork::default(),
    )
    .expect("unbounded wrapper");
    let error = admitted
        .read_ownership(owner)
        .expect_err("missing admitted source implementation must fail closed");
    assert_eq!(error.code, READ_ADMISSION_UNSUPPORTED);
    assert_eq!(admitted.base().raw_ownership_calls, 0);
}

#[test]
fn witness_wrapper_maps_generic_lower_read_exhaustion() {
    let key = witness().namespaces[0].0;
    for (generic, expected) in [
        ("persistent_map_admission_pages_read", "change_budget_witness_map_pages"),
        ("persistent_map_admission_entries_visited", "change_budget_witness_map_entries"),
        ("persistent_map_admission_bytes_read", "change_budget_witness_bytes"),
        ("object_read_catalog_lookups_exhausted", "change_budget_witness_catalog_lookups"),
        ("object_read_objects_exhausted", "change_budget_witness_objects"),
        ("object_read_bytes_exhausted", "change_budget_witness_bytes"),
        (READ_ADMISSION_DECODED_RECORDS, "change_budget_witness_decoded_records"),
    ] {
        let mut admitted = BudgetedWitnessBase::new(
            witness_source(Some(generic)),
            WitnessReadAdmission::unbounded(),
            WitnessReadWork::default(),
        )
        .expect("unbounded wrapper");
        let error = admitted.read_namespace(&key).expect_err("injected lower admission failure");
        assert_eq!(error.code, expected);
        assert_eq!(admitted.base().admitted_calls, 1);
        assert_eq!(admitted.work(), WitnessReadWork::default());
    }
}

#[test]
fn in_memory_witness_decoded_record_limit_is_checked_before_clone() {
    let owner = witness().summaries[0].0;
    let mut admitted = BudgetedWitnessBase::new(
        witness(),
        WitnessReadAdmission { maximum_decoded_records: 0, ..WitnessReadAdmission::unbounded() },
        WitnessReadWork::default(),
    )
    .expect("valid decoded-record admission");
    let error = admitted
        .read_owner_summary(owner)
        .expect_err("summary clone must not exceed decoded-record admission");
    assert_eq!(error.code, "change_budget_witness_decoded_records");
    assert_eq!(admitted.work(), WitnessReadWork::default());
}

#[test]
fn in_memory_canonical_reads_answer_exact_values() {
    let mut base = snapshot();
    let read = base.read_owner(OwnerKey::Declaration(2)).expect("owner read");
    assert_eq!(read.value.map(|record| record.content), Some(20));
    assert_eq!(read.work.point_reads, 1);
    let missing = base.read_owner(OwnerKey::Declaration(3)).expect("missing owner read");
    assert!(missing.value.is_none());
    let object = base.read_type_object(digest(3)).expect("type read");
    assert_eq!(object.value, Some(TypeObject { form: 1, content: 30 }));
    let refused = base
        .read_owner_admitted(
            OwnerKey::Module(1),
            CanonicalReadAdmission { maximum_point_reads: 0, ..CanonicalReadAdmission::unbounded() },
        )
        .expect_err("no point read admitted");
    assert_eq!(refused.code, "change_budget_canonical_point_reads");
}

#[test]
fn in_memory_summary_read_checks_its_binding() {
    let mut base = witness();
    let owner = base.summaries[0].0;
    let read = base.read_owner_summary(owner).expect("bound summary");
    let bound = read.value.expect("present summary");
    assert_eq!(bound.summary, summary(100));
    assert_eq!(bound.digest, base.summary_bindings[0].1);
    assert_eq!(read.work.witness_records_decoded, 1);

    let absent = base.read_owner_summary(OwnerKey::Module(1)).expect("absent summary");
    assert!(absent.value.is_none());
    assert_eq!(absent.work.witness_records_decoded, 0);

    let mut corrupt = witness();
    corrupt.summary_bindings[0].1 = digest(99);
    let error = corrupt.read_owner_summary(owner).expect_err("binding mismatch");
    assert_eq!(error.code, "change_summary_base_binding");
    assert_eq!(error.class, DiagnosticClass::Corrupt);

    let mut missing = witness();
    missing.summary_bindings.clear();
    let error = missing.read_owner_summary(owner).expect_err("domain mismatch");
    assert_eq!(error.code, "change_summary_base_missing");
}

#[test]
fn in_memory_relation_reads_select_bounded_prefixes() {
    let mut base = witness();
    let function = OwnerKey::Declaration(2);
    let module = OwnerKey::Module(1);

    let outgoing = base.read_outgoing_relations(function, 1).expect("outgoing");
    assert_eq!(outgoing.value.edges.len(), 1);
    assert_eq!(outgoing.value.edges[0].kind, RelationKind::TypeReference);
    assert!(outgoing.value.truncated);
    assert_eq!(outgoing.work.witness_records_decoded, 1);

    let incoming = base.read_incoming_relations(module, 8).expect("incoming");
    assert_eq!(incoming.value.edges.len(), 2);
    assert!(!incoming.value.truncated);

    let calls = base
        .read_incoming_relations_of_kind(module, RelationKind::FunctionCall, 8)
        .expect("incoming calls");
    assert_eq!(calls.value.edges.len(), 1);
    assert_eq!(calls.value.edges[0].kind, RelationKind::FunctionCall);

    let package = base.read_incoming_package_relations(PackageId(7), 8).expect("package relations");
    assert_eq!(package.value.edges.len(), 3);
    let none = base.read_incoming_package_relations(PackageId(8), 8).expect("other package");
    assert!(none.value.edges.is_empty());

    let zero = base.read_outgoing_relations(function, 0).expect_err("zero items");
    assert_eq!(zero.code, "change_relation_item_budget");
    let huge = base.read_incoming_relations(module, 4_097).expect_err("too many items");
    assert_eq!(huge.code, "change_relation_item_budget");

    assert!(base.contains_forward_relation(base.relations[1]).expect("membership").value);
}

#[test]
fn in_memory_test_dependency_reads_require_declarations() {
    let mut base = witness();
    let test = OwnerKey::Declaration(9);
    let read = base.read_test_dependencies(test, 1).expect("first dependency");
    assert_eq!(read.value.dependencies.len(), 1);
    assert!(read.value.truncated);
    let all = base.read_test_dependencies(test, 2).expect("all dependencies");
    assert_eq!(all.value.dependencies.len(), 2);
    assert!(!all.value.truncated);
    assert_eq!(all.work.witness_records_decoded, 2);

    let error = base.read_test_dependencies(OwnerKey::Module(1), 1).expect_err("module owner");
    assert_eq!(error.code, "change_test_dependency_owner");
    assert_eq!(error.class, DiagnosticClass::Source);
    let error = base.read_test_dependencies(test, 0).expect_err("zero items");
    assert_eq!(error.code, "change_test_dependency_item_budget");
}

#[test]
fn budgeted_witness_reports_the_manifest_of_its_source() {
    let source = witness();
    let manifest = source.manifest;
    let admitted = BudgetedWitnessBase::new(source, WitnessReadAdmission::unbounded(), WitnessReadWork::default())
        .expect("unbounded wrapper");
    assert_eq!(admitted.witness_manifest(), manifest);
    assert_eq!(admitted.witness_repository_id(), manifest.repository_id);
    assert_eq!(admitted.witness_package_id(), manifest.package_id);
    assert_eq!(admitted.owner_summary_count(), manifest.owner_summaries);
    assert_eq!(admitted.witness_contract_is_current(), manifest.contract_is_current());
}
