//! Exact point reads over an accepted base, with cumulative resource accounting.

use crate::budget::{excess_code, first_excess, CanonicalReadAdmission, WitnessReadAdmission, MAXIMUM_RELATION_PREFIX_ITEMS, MAXIMUM_TEST_DEPENDENCY_PREFIX_ITEMS};
use crate::diagnostic::{static_message, Diagnostic, DiagnosticClass};
use crate::kernel::{
    digest_of, find_dependency, find_interface, find_owner, find_retirement, find_type, dependency_in, interface_in,
    owner_in, retirement_in, type_in, DependencyRecord, KernelSnapshot, OwnerKey, OwnerRecord, PackageId,
    PackageInterfaceRecord, PackageRevisionDigest, RepositoryId, RetirementRecord, RevisionId, SemanticRoot, TypeObject,
    TypeObjectDigest,
};
use crate::witness::{
    bound_in, contains_edge, encode_owner_summary, owner_summary_bytes, find_namespace, find_ownership, find_summary,
    find_summary_binding, ExactOwnerKey, FullWitness, NamespaceKey, OwnerSummary, OwnerSummaryDigest,
    OwnershipEntry, RelationEdge, RelationEndpoint, RelationKind, TestDependency, ValidationWitnessManifest,
};
use crate::text::unsupported_message;
use vstd::prelude::*;

verus! {

/// Saturating addition of two counters, as a mathematical value.
pub open spec fn sat_add(a: u64, b: u64) -> u64 {
    if a + b > u64::MAX {
        u64::MAX
    } else {
        (a + b) as u64
    }
}

/// Work observed while reading accepted canonical authority.
#[derive(Clone, Copy, Debug, PartialEq, Eq, Structural)]
pub struct CanonicalReadWork {
    pub point_reads: u64,
    pub map_pages_read: u64,
    pub map_entries_visited: u64,
    pub catalog_lookups: u64,
    pub objects_read: u64,
    pub bytes_read: u64,
    pub canonical_records_decoded: u64,
}

impl Default for CanonicalReadWork {
    fn default() -> (r: Self)
        ensures
            r == CanonicalReadWork::zero(),
    {
        CanonicalReadWork {
            point_reads: 0,
            map_pages_read: 0,
            map_entries_visited: 0,
            catalog_lookups: 0,
            objects_read: 0,
            bytes_read: 0,
            canonical_records_decoded: 0,
        }
    }
}

impl CanonicalReadWork {
    pub open spec fn zero() -> CanonicalReadWork {
        CanonicalReadWork {
            point_reads: 0,
            map_pages_read: 0,
            map_entries_visited: 0,
            catalog_lookups: 0,
            objects_read: 0,
            bytes_read: 0,
            canonical_records_decoded: 0,
        }
    }

    /// The one-point-read observation of an in-memory lookup.
    pub open spec fn one_point() -> CanonicalReadWork {
        CanonicalReadWork { point_reads: 1, ..CanonicalReadWork::zero() }
    }

    /// Field-wise saturating sum of two observations.
    pub open spec fn sum(self, other: CanonicalReadWork) -> CanonicalReadWork {
        CanonicalReadWork {
            point_reads: sat_add(self.point_reads, other.point_reads),
            map_pages_read: sat_add(self.map_pages_read, other.map_pages_read),
            map_entries_visited: sat_add(self.map_entries_visited, other.map_entries_visited),
            catalog_lookups: sat_add(self.catalog_lookups, other.catalog_lookups),
            objects_read: sat_add(self.objects_read, other.objects_read),
            bytes_read: sat_add(self.bytes_read, other.bytes_read),
            canonical_records_decoded: sat_add(
                self.canonical_records_decoded,
                other.canonical_records_decoded,
            ),
        }
    }

    /// Adds `other` to this observation, saturating each counter.
    pub fn add(&mut self, other: Self)
        ensures
            *final(self) == old(self).sum(other),
    {
        self.point_reads = self.point_reads.saturating_add(other.point_reads);
        self.map_pages_read = self.map_pages_read.saturating_add(other.map_pages_read);
        self.map_entries_visited = self.map_entries_visited.saturating_add(
            other.map_entries_visited,
        );
        self.catalog_lookups = self.catalog_lookups.saturating_add(other.catalog_lookups);
        self.objects_read = self.objects_read.saturating_add(other.objects_read);
        self.bytes_read = self.bytes_read.saturating_add(other.bytes_read);
        self.canonical_records_decoded = self.canonical_records_decoded.saturating_add(
            other.canonical_records_decoded,
        );
    }
}

/// Work observed while reading accepted validation evidence.
#[derive(Clone, Copy, Debug, PartialEq, Eq, Structural)]
pub struct WitnessReadWork {
    pub point_reads: u64,
    pub map_pages_read: u64,
    pub map_entries_visited: u64,
    pub catalog_lookups: u64,
    pub objects_read: u64,
    pub bytes_read: u64,
    pub witness_records_decoded: u64,
}

impl Default for WitnessReadWork {
    fn default() -> (r: Self)
        ensures
            r == WitnessReadWork::zero(),
    {
        WitnessReadWork {
            point_reads: 0,
            map_pages_read: 0,
            map_entries_visited: 0,
            catalog_lookups: 0,
            objects_read: 0,
            bytes_read: 0,
            witness_records_decoded: 0,
        }
    }
}

impl WitnessReadWork {
    pub open spec fn zero() -> WitnessReadWork {
        WitnessReadWork {
            point_reads: 0,
            map_pages_read: 0,
            map_entries_visited: 0,
            catalog_lookups: 0,
            objects_read: 0,
            bytes_read: 0,
            witness_records_decoded: 0,
        }
    }

    /// One point read that decoded `records` witness records.
    pub open spec fn point(records: u64) -> WitnessReadWork {
        WitnessReadWork { point_reads: 1, witness_records_decoded: records, ..WitnessReadWork::zero() }
    }

    /// Field-wise saturating sum of two observations.
    pub open spec fn sum(self, other: WitnessReadWork) -> WitnessReadWork {
        WitnessReadWork {
            point_reads: sat_add(self.point_reads, other.point_reads),
            map_pages_read: sat_add(self.map_pages_read, other.map_pages_read),
            map_entries_visited: sat_add(self.map_entries_visited, other.map_entries_visited),
            catalog_lookups: sat_add(self.catalog_lookups, other.catalog_lookups),
            objects_read: sat_add(self.objects_read, other.objects_read),
            bytes_read: sat_add(self.bytes_read, other.bytes_read),
            witness_records_decoded: sat_add(
                self.witness_records_decoded,
                other.witness_records_decoded,
            ),
        }
    }

    /// Adds `other` to this observation, saturating each counter.
    pub fn add(&mut self, other: Self)
        ensures
            *final(self) == old(self).sum(other),
    {
        self.point_reads = self.point_reads.saturating_add(other.point_reads);
        self.map_pages_read = self.map_pages_read.saturating_add(other.map_pages_read);
        self.map_entries_visited = self.map_entries_visited.saturating_add(
            other.map_entries_visited,
        );
        self.catalog_lookups = self.catalog_lookups.saturating_add(other.catalog_lookups);
        self.objects_read = self.objects_read.saturating_add(other.objects_read);
        self.bytes_read = self.bytes_read.saturating_add(other.bytes_read);
        self.witness_records_decoded = self.witness_records_decoded.saturating_add(
            other.witness_records_decoded,
        );
    }
}

/// A value read from canonical authority with the work that produced it.
#[derive(Clone, Debug)]
pub struct CanonicalRead<T> {
    pub value: T,
    pub work: CanonicalReadWork,
}

impl<T> CanonicalRead<T> {
    /// A read answered from memory: one point read and nothing else.
    pub fn memory(value: T) -> (r: Self)
        ensures
            r.value == value,
            r.work == CanonicalReadWork::one_point(),
    {
        CanonicalRead {
            value,
            work: CanonicalReadWork {
                point_reads: 1,
                map_pages_read: 0,
                map_entries_visited: 0,
                catalog_lookups: 0,
                objects_read: 0,
                bytes_read: 0,
                canonical_records_decoded: 0,
            },
        }
    }
}

/// A value read from validation evidence with the work that produced it.
#[derive(Clone, Debug)]
pub struct WitnessRead<T> {
    pub value: T,
    pub work: WitnessReadWork,
}

impl<T> WitnessRead<T> {
    /// A read answered from memory without decoding any record.
    pub fn memory(value: T) -> (r: Self)
        ensures
            r.value == value,
            r.work == WitnessReadWork::point(0),
    {
        Self::memory_records(value, 0)
    }

    /// A read answered from memory that decoded `witness_records_decoded` records.
    pub fn memory_records(value: T, witness_records_decoded: u64) -> (r: Self)
        ensures
            r.value == value,
            r.work == WitnessReadWork::point(witness_records_decoded),
    {
        WitnessRead {
            value,
            work: WitnessReadWork {
                point_reads: 1,
                map_pages_read: 0,
                map_entries_visited: 0,
                catalog_lookups: 0,
                objects_read: 0,
                bytes_read: 0,
                witness_records_decoded,
            },
        }
    }
}


/// Code of a source that cannot perform admitted reads.
pub const READ_ADMISSION_UNSUPPORTED: &'static str = "base_read_admission_unsupported";

/// Code a source reports when an admitted read would decode too many records.
pub const READ_ADMISSION_DECODED_RECORDS: &'static str = "base_read_admission_decoded_records";

/// One owner summary together with the digest the witness binds it to.
#[derive(Clone, Copy, Debug, PartialEq, Eq, Structural)]
pub struct BoundOwnerSummary {
    pub digest: OwnerSummaryDigest,
    pub summary: OwnerSummary,
}

/// A bounded prefix of relation edges.
#[derive(Clone, Debug)]
pub struct WitnessRelationRead {
    pub edges: Vec<RelationEdge>,
    pub truncated: bool,
}

/// A bounded prefix of one test's dependencies.
#[derive(Clone, Debug)]
pub struct WitnessTestDependencyRead {
    pub dependencies: Vec<TestDependency>,
    pub truncated: bool,
}

/// The diagnostic of a source that does not implement admitted reads.
pub fn admission_unsupported(kind: &str) -> (r: Diagnostic)
    ensures
        r.class == DiagnosticClass::Infrastructure,
        r.code@ == READ_ADMISSION_UNSUPPORTED@,
{
    Diagnostic::new(DiagnosticClass::Infrastructure, READ_ADMISSION_UNSUPPORTED, unsupported_message(kind))
}

/// A base-read diagnostic with a fixed message.
pub fn base_read_error(class: DiagnosticClass, code: &str, message: &str) -> (r: Diagnostic)
    ensures
        r.class == class,
        r.code@ == code@,
{
    Diagnostic::new(class, code, static_message(message))
}

/// The accepted canonical authority a source answers from, key by key.
pub struct CanonicalAuthority {
    pub root: SemanticRoot,
    pub revision: Option<RevisionId>,
    pub owners: Map<OwnerKey, OwnerRecord>,
    pub types: Map<TypeObjectDigest, TypeObject>,
    pub interfaces: Map<(PackageRevisionDigest, OwnerKey), PackageInterfaceRecord>,
    pub dependencies: Map<PackageId, DependencyRecord>,
    pub retirements: Map<OwnerKey, RetirementRecord>,
}

/// The value a map binds to `key`, if any.
pub open spec fn entry<K, V>(map: Map<K, V>, key: K) -> Option<V> {
    if map.dom().contains(key) {
        Some(map[key])
    } else {
        None
    }
}

/// Narrow accepted-authority surface required before high-level edits become an exact canonical
/// delta. Implementations must pin one immutable base for the lifetime of a normalization.
pub trait CanonicalBaseRead {
    /// The exact authority this source pins for its whole lifetime.
    spec fn authority(&self) -> CanonicalAuthority;

    /// Whether every unadmitted read of this source succeeds.
    spec fn reads_are_total(&self) -> bool;

    /// Whether `d` is a diagnostic this source may refuse a read with.
    spec fn read_refusal(&self, d: Diagnostic) -> bool;

    /// The work this source reports for a read of the owner under `owner`.
    spec fn owner_read_work(&self, owner: OwnerKey) -> CanonicalReadWork;

    /// The work this source reports for a read of the owner under `owner` admitted under
    /// `admission`.
    spec fn owner_admitted_work(&self, owner: OwnerKey, admission: CanonicalReadAdmission) -> CanonicalReadWork;

    fn semantic_root(&self) -> (r: SemanticRoot)
        ensures
            r == self.authority().root,
    ;

    fn repository_id(&self) -> (r: RepositoryId)
        ensures
            r == self.authority().root.repository_id,
    ;

    fn package_id(&self) -> (r: PackageId)
        ensures
            r == self.authority().root.package_id,
    ;

    fn exact_revision(&self) -> (r: Option<RevisionId>)
        ensures
            r == self.authority().revision,
    ;

    fn owner_count(&self) -> (r: u64)
        ensures
            r == self.authority().root.owners,
    ;

    fn dependency_count(&self) -> (r: u64)
        ensures
            r == self.authority().root.dependencies,
    ;

    fn retirement_count(&self) -> (r: u64)
        ensures
            r == self.authority().root.retirements,
    ;

    fn read_owner(&mut self, owner: OwnerKey) -> (r: Result<CanonicalRead<Option<OwnerRecord>>, Diagnostic>)
        ensures
            final(self).authority() == old(self).authority(),
            final(self).reads_are_total() == old(self).reads_are_total(),
            old(self).reads_are_total() ==> r is Ok,
            r matches Err(d) ==> old(self).read_refusal(d),
            forall|e: Diagnostic| #[trigger] final(self).read_refusal(e) == old(self).read_refusal(e),
            r matches Ok(read) ==> read.value == entry(old(self).authority().owners, owner),
            r matches Ok(read) ==> read.work == old(self).owner_read_work(owner),
    ;

    fn read_type_object(&mut self, digest: TypeObjectDigest) -> (r: Result<CanonicalRead<Option<TypeObject>>, Diagnostic>)
        ensures
            final(self).authority() == old(self).authority(),
            final(self).reads_are_total() == old(self).reads_are_total(),
            old(self).reads_are_total() ==> r is Ok,
            r matches Err(d) ==> old(self).read_refusal(d),
            forall|e: Diagnostic| #[trigger] final(self).read_refusal(e) == old(self).read_refusal(e),
            r matches Ok(read) ==> read.value == entry(old(self).authority().types, digest),
    ;

    fn read_package_interface_owner(
        &mut self,
        dependency: &DependencyRecord,
        owner: OwnerKey,
    ) -> (r: Result<CanonicalRead<Option<PackageInterfaceRecord>>, Diagnostic>)
        ensures
            final(self).authority() == old(self).authority(),
            final(self).reads_are_total() == old(self).reads_are_total(),
            old(self).reads_are_total() ==> r is Ok,
            r matches Err(d) ==> old(self).read_refusal(d),
            forall|e: Diagnostic| #[trigger] final(self).read_refusal(e) == old(self).read_refusal(e),
            r matches Ok(read) ==> read.value == entry(old(self).authority().interfaces, (dependency.package_revision, owner)),
    ;

    fn read_dependency(&mut self, package: PackageId) -> (r: Result<CanonicalRead<Option<DependencyRecord>>, Diagnostic>)
        ensures
            final(self).authority() == old(self).authority(),
            final(self).reads_are_total() == old(self).reads_are_total(),
            old(self).reads_are_total() ==> r is Ok,
            r matches Err(d) ==> old(self).read_refusal(d),
            forall|e: Diagnostic| #[trigger] final(self).read_refusal(e) == old(self).read_refusal(e),
            r matches Ok(read) ==> read.value == entry(old(self).authority().dependencies, package),
    ;

    fn read_retirement(&mut self, owner: OwnerKey) -> (r: Result<CanonicalRead<Option<RetirementRecord>>, Diagnostic>)
        ensures
            final(self).authority() == old(self).authority(),
            final(self).reads_are_total() == old(self).reads_are_total(),
            old(self).reads_are_total() ==> r is Ok,
            r matches Err(d) ==> old(self).read_refusal(d),
            forall|e: Diagnostic| #[trigger] final(self).read_refusal(e) == old(self).read_refusal(e),
            r matches Ok(read) ==> read.value == entry(old(self).authority().retirements, owner),
    ;

    /// Performs an admitted owner read. The default fails before invoking an unbounded reader.
    fn read_owner_admitted(
        &mut self,
        owner: OwnerKey,
        admission: CanonicalReadAdmission,
    ) -> (r: Result<CanonicalRead<Option<OwnerRecord>>, Diagnostic>)
        ensures
            final(self).authority() == old(self).authority(),
            r matches Ok(read) ==> read.value == entry(old(self).authority().owners, owner),
            r matches Ok(read) ==> read.work == old(self).owner_admitted_work(owner, admission),
            r matches Err(d) ==> old(self).read_refusal(d)
                || (d.class == DiagnosticClass::Infrastructure && d.code@ == READ_ADMISSION_UNSUPPORTED@),
            forall|e: Diagnostic| #[trigger] final(self).read_refusal(e) == old(self).read_refusal(e),
        default_ensures
            r matches Err(d) && d.class == DiagnosticClass::Infrastructure && d.code@ == READ_ADMISSION_UNSUPPORTED@,
    {
        Err(admission_unsupported("canonical owner"))
    }

    /// Performs an admitted type-object read. The default fails closed.
    fn read_type_object_admitted(
        &mut self,
        digest: TypeObjectDigest,
        admission: CanonicalReadAdmission,
    ) -> (r: Result<CanonicalRead<Option<TypeObject>>, Diagnostic>)
        ensures
            final(self).authority() == old(self).authority(),
            r matches Ok(read) ==> read.value == entry(old(self).authority().types, digest),
            r matches Err(d) ==> old(self).read_refusal(d)
                || (d.class == DiagnosticClass::Infrastructure && d.code@ == READ_ADMISSION_UNSUPPORTED@),
            forall|e: Diagnostic| #[trigger] final(self).read_refusal(e) == old(self).read_refusal(e),
        default_ensures
            r matches Err(d) && d.class == DiagnosticClass::Infrastructure && d.code@ == READ_ADMISSION_UNSUPPORTED@,
    {
        Err(admission_unsupported("canonical type object"))
    }

    /// Performs an admitted package-interface owner read. The default fails closed.
    fn read_package_interface_owner_admitted(
        &mut self,
        dependency: &DependencyRecord,
        owner: OwnerKey,
        admission: CanonicalReadAdmission,
    ) -> (r: Result<CanonicalRead<Option<PackageInterfaceRecord>>, Diagnostic>)
        ensures
            final(self).authority() == old(self).authority(),
            r matches Ok(read) ==> read.value == entry(old(self).authority().interfaces, (dependency.package_revision, owner)),
            r matches Err(d) ==> old(self).read_refusal(d)
                || (d.class == DiagnosticClass::Infrastructure && d.code@ == READ_ADMISSION_UNSUPPORTED@),
            forall|e: Diagnostic| #[trigger] final(self).read_refusal(e) == old(self).read_refusal(e),
        default_ensures
            r matches Err(d) && d.class == DiagnosticClass::Infrastructure && d.code@ == READ_ADMISSION_UNSUPPORTED@,
    {
        Err(admission_unsupported("package-interface owner"))
    }

    /// Performs an admitted dependency read. The default fails closed.
    fn read_dependency_admitted(
        &mut self,
        package: PackageId,
        admission: CanonicalReadAdmission,
    ) -> (r: Result<CanonicalRead<Option<DependencyRecord>>, Diagnostic>)
        ensures
            final(self).authority() == old(self).authority(),
            r matches Ok(read) ==> read.value == entry(old(self).authority().dependencies, package),
            r matches Err(d) ==> old(self).read_refusal(d)
                || (d.class == DiagnosticClass::Infrastructure && d.code@ == READ_ADMISSION_UNSUPPORTED@),
            forall|e: Diagnostic| #[trigger] final(self).read_refusal(e) == old(self).read_refusal(e),
        default_ensures
            r matches Err(d) && d.class == DiagnosticClass::Infrastructure && d.code@ == READ_ADMISSION_UNSUPPORTED@,
    {
        Err(admission_unsupported("canonical dependency"))
    }

    /// Performs an admitted retirement read. The default fails closed.
    fn read_retirement_admitted(
        &mut self,
        owner: OwnerKey,
        admission: CanonicalReadAdmission,
    ) -> (r: Result<CanonicalRead<Option<RetirementRecord>>, Diagnostic>)
        ensures
            final(self).authority() == old(self).authority(),
            r matches Ok(read) ==> read.value == entry(old(self).authority().retirements, owner),
            r matches Err(d) ==> old(self).read_refusal(d)
                || (d.class == DiagnosticClass::Infrastructure && d.code@ == READ_ADMISSION_UNSUPPORTED@),
            forall|e: Diagnostic| #[trigger] final(self).read_refusal(e) == old(self).read_refusal(e),
        default_ensures
            r matches Err(d) && d.class == DiagnosticClass::Infrastructure && d.code@ == READ_ADMISSION_UNSUPPORTED@,
    {
        Err(admission_unsupported("canonical retirement"))
    }
}

/// The evidence a witness source answers from: its bindings and its relations, as stored.
pub struct WitnessEvidence {
    /// The manifest the witness was written under.
    pub manifest: ValidationWitnessManifest,
    /// The package whose owners the owner-keyed reads address.
    pub package_id: PackageId,
    /// Namespace bindings, as stored.
    pub namespaces: Seq<(NamespaceKey, OwnerKey)>,
    /// Ownership bindings, as stored.
    pub ownership: Seq<(OwnerKey, OwnershipEntry)>,
    /// Forward relations, as stored.
    pub forward: Seq<RelationEdge>,
    /// Reverse relations, as stored.
    pub reverse: Seq<RelationEdge>,
    /// Owner summary objects, as stored.
    pub summaries: Seq<(OwnerKey, OwnerSummary)>,
    /// The digest each owner summary is bound to, as stored.
    pub summary_bindings: Seq<(OwnerKey, OwnerSummaryDigest)>,
}

/// The summary of `owner` together with its binding, where both are stored.
pub open spec fn bound_summary(evidence: WitnessEvidence, owner: OwnerKey) -> Option<BoundOwnerSummary> {
    match (bound_in(evidence.summaries, owner), bound_in(evidence.summary_bindings, owner)) {
        (Some(summary), Some(digest)) => Some(BoundOwnerSummary { digest, summary }),
        _ => None,
    }
}

/// Whether the summary object and the binding of `owner` agree: both absent, or the binding is
/// the digest of the object's canonical bytes.
pub open spec fn summary_binding_holds(evidence: WitnessEvidence, owner: OwnerKey) -> bool {
    match (bound_in(evidence.summaries, owner), bound_in(evidence.summary_bindings, owner)) {
        (Some(summary), Some(digest)) => digest_of(owner_summary_bytes(summary)) == digest,
        (None, None) => true,
        _ => false,
    }
}

/// Whether `answer` is the bounded prefix of the edges `selection` takes from `edges`.
pub open spec fn relation_prefix_answer(
    edges: Seq<RelationEdge>,
    selection: EdgeSelection,
    maximum_items: usize,
    answer: WitnessRelationRead,
) -> bool {
    &&& answer.edges@ == bounded_prefix(selected_edges(edges, selection), maximum_items as nat)
    &&& answer.truncated == (selected_edges(edges, selection).len() > maximum_items)
}

/// Exact derived-witness reads required to classify the local effects of canonical owner edits.
pub trait WitnessBaseRead {
    /// The evidence this source pins for its whole lifetime.
    spec fn evidence(&self) -> WitnessEvidence;

    /// Whether every unadmitted binding, membership and relation read (within the item range)
    /// succeeds.
    spec fn witness_reads_are_total(&self) -> bool;

    /// Whether `d` is a diagnostic this source may refuse a read with.
    spec fn read_refusal(&self, d: Diagnostic) -> bool;

    fn witness_manifest(&self) -> (r: ValidationWitnessManifest)
        ensures
            r == self.evidence().manifest,
    ;

    fn witness_repository_id(&self) -> (r: RepositoryId)
        ensures
            r == self.evidence().manifest.repository_id,
    ;

    fn witness_package_id(&self) -> (r: PackageId)
        ensures
            r == self.evidence().package_id,
    ;

    fn witness_contract_is_current(&self) -> (r: bool)
        ensures
            r == (self.evidence().manifest.contract_version == crate::witness::CURRENT_WITNESS_CONTRACT),
    ;

    fn owner_summary_count(&self) -> (r: u64)
        ensures
            r == self.evidence().manifest.owner_summaries,
    ;

    fn read_namespace(&mut self, key: &NamespaceKey) -> (r: Result<WitnessRead<Option<OwnerKey>>, Diagnostic>)
        ensures
            final(self).evidence() == old(self).evidence(),
            final(self).witness_reads_are_total() == old(self).witness_reads_are_total(),
            r matches Err(d) ==> old(self).read_refusal(d),
            forall|e: Diagnostic| #[trigger] final(self).read_refusal(e) == old(self).read_refusal(e),
            r matches Ok(read) ==> read.value == bound_in(old(self).evidence().namespaces, *key),
            old(self).witness_reads_are_total() ==> r is Ok,
    ;

    fn read_ownership(&mut self, owner: OwnerKey) -> (r: Result<WitnessRead<Option<OwnershipEntry>>, Diagnostic>)
        ensures
            final(self).evidence() == old(self).evidence(),
            final(self).witness_reads_are_total() == old(self).witness_reads_are_total(),
            r matches Err(d) ==> old(self).read_refusal(d),
            forall|e: Diagnostic| #[trigger] final(self).read_refusal(e) == old(self).read_refusal(e),
            r matches Ok(read) ==> read.value == bound_in(old(self).evidence().ownership, owner),
            old(self).witness_reads_are_total() ==> r is Ok,
    ;

    fn contains_forward_relation(&mut self, edge: RelationEdge) -> (r: Result<WitnessRead<bool>, Diagnostic>)
        ensures
            final(self).evidence() == old(self).evidence(),
            final(self).witness_reads_are_total() == old(self).witness_reads_are_total(),
            r matches Err(d) ==> old(self).read_refusal(d),
            forall|e: Diagnostic| #[trigger] final(self).read_refusal(e) == old(self).read_refusal(e),
            r matches Ok(read) ==> read.value == old(self).evidence().forward.contains(edge),
            old(self).witness_reads_are_total() ==> r is Ok,
    ;

    fn read_owner_summary(&mut self, owner: OwnerKey) -> (r: Result<WitnessRead<Option<BoundOwnerSummary>>, Diagnostic>)
        ensures
            final(self).evidence() == old(self).evidence(),
            final(self).witness_reads_are_total() == old(self).witness_reads_are_total(),
            r matches Err(d) ==> old(self).read_refusal(d),
            forall|e: Diagnostic| #[trigger] final(self).read_refusal(e) == old(self).read_refusal(e),
            r matches Ok(read) ==> read.value == bound_summary(old(self).evidence(), owner),
            old(self).witness_reads_are_total() ==> (r is Ok <==> summary_binding_holds(old(self).evidence(), owner)),
            old(self).witness_reads_are_total() && !summary_binding_holds(old(self).evidence(), owner)
                ==> (r matches Err(d) && d.class == DiagnosticClass::Corrupt),
    ;

    fn read_outgoing_relations(&mut self,
        owner: OwnerKey,
        maximum_items: usize,
    ) -> (r: Result<WitnessRead<WitnessRelationRead>, Diagnostic>)
        ensures
            final(self).evidence() == old(self).evidence(),
            final(self).witness_reads_are_total() == old(self).witness_reads_are_total(),
            r matches Err(d) ==> old(self).read_refusal(d),
            forall|e: Diagnostic| #[trigger] final(self).read_refusal(e) == old(self).read_refusal(e),
            r matches Ok(read) ==> relation_prefix_answer(old(self).evidence().forward, EdgeSelection::Outgoing(owner_endpoint(old(self).evidence().package_id, owner)), maximum_items, read.value),
            old(self).witness_reads_are_total() && 0 < maximum_items <= MAXIMUM_RELATION_PREFIX_ITEMS ==> r is Ok,
    ;

    fn read_incoming_relations(&mut self,
        owner: OwnerKey,
        maximum_items: usize,
    ) -> (r: Result<WitnessRead<WitnessRelationRead>, Diagnostic>)
        ensures
            final(self).evidence() == old(self).evidence(),
            final(self).witness_reads_are_total() == old(self).witness_reads_are_total(),
            r matches Err(d) ==> old(self).read_refusal(d),
            forall|e: Diagnostic| #[trigger] final(self).read_refusal(e) == old(self).read_refusal(e),
            r matches Ok(read) ==> relation_prefix_answer(old(self).evidence().reverse, EdgeSelection::Incoming(owner_endpoint(old(self).evidence().package_id, owner)), maximum_items, read.value),
            old(self).witness_reads_are_total() && 0 < maximum_items <= MAXIMUM_RELATION_PREFIX_ITEMS ==> r is Ok,
    ;

    fn read_incoming_relations_of_kind(&mut self,
        owner: OwnerKey,
        kind: RelationKind,
        maximum_items: usize,
    ) -> (r: Result<WitnessRead<WitnessRelationRead>, Diagnostic>)
        ensures
            final(self).evidence() == old(self).evidence(),
            final(self).witness_reads_are_total() == old(self).witness_reads_are_total(),
            r matches Err(d) ==> old(self).read_refusal(d),
            forall|e: Diagnostic| #[trigger] final(self).read_refusal(e) == old(self).read_refusal(e),
            r matches Ok(read) ==> relation_prefix_answer(old(self).evidence().reverse, EdgeSelection::IncomingOfKind(owner_endpoint(old(self).evidence().package_id, owner), kind), maximum_items, read.value),
            old(self).witness_reads_are_total() && 0 < maximum_items <= MAXIMUM_RELATION_PREFIX_ITEMS ==> r is Ok,
    ;

    fn read_incoming_package_relations(&mut self,
        package: PackageId,
        maximum_items: usize,
    ) -> (r: Result<WitnessRead<WitnessRelationRead>, Diagnostic>)
        ensures
            final(self).evidence() == old(self).evidence(),
            final(self).witness_reads_are_total() == old(self).witness_reads_are_total(),
            r matches Err(d) ==> old(self).read_refusal(d),
            forall|e: Diagnostic| #[trigger] final(self).read_refusal(e) == old(self).read_refusal(e),
            r matches Ok(read) ==> relation_prefix_answer(old(self).evidence().reverse, EdgeSelection::IncomingPackage(package), maximum_items, read.value),
            old(self).witness_reads_are_total() && 0 < maximum_items <= MAXIMUM_RELATION_PREFIX_ITEMS ==> r is Ok,
    ;

    fn read_test_dependencies(&mut self,
        test: OwnerKey,
        maximum_items: usize,
    ) -> (r: Result<WitnessRead<WitnessTestDependencyRead>, Diagnostic>)
        ensures
            final(self).evidence() == old(self).evidence(),
            final(self).witness_reads_are_total() == old(self).witness_reads_are_total(),
            r matches Err(d) ==> old(self).read_refusal(d),
            forall|e: Diagnostic| #[trigger] final(self).read_refusal(e) == old(self).read_refusal(e),
    ;

    /// Performs an admitted namespace read. The default fails before an unbounded read.
    fn read_namespace_admitted(&mut self,
        key: &NamespaceKey,
        admission: WitnessReadAdmission,
    ) -> (r: Result<WitnessRead<Option<OwnerKey>>, Diagnostic>)
        ensures
            final(self).evidence() == old(self).evidence(),
            final(self).witness_reads_are_total() == old(self).witness_reads_are_total(),
            r matches Err(d) ==> old(self).read_refusal(d)
                || (d.class == DiagnosticClass::Infrastructure && d.code@ == READ_ADMISSION_UNSUPPORTED@),
            forall|e: Diagnostic| #[trigger] final(self).read_refusal(e) == old(self).read_refusal(e),
            r matches Ok(read) ==> read.value == bound_in(old(self).evidence().namespaces, *key),
        default_ensures
            r matches Err(d) && d.class == DiagnosticClass::Infrastructure && d.code@ == READ_ADMISSION_UNSUPPORTED@,
    {
        Err(admission_unsupported("witness namespace"))
    }

    /// Performs an admitted ownership read. The default fails closed.
    fn read_ownership_admitted(&mut self,
        owner: OwnerKey,
        admission: WitnessReadAdmission,
    ) -> (r: Result<WitnessRead<Option<OwnershipEntry>>, Diagnostic>)
        ensures
            final(self).evidence() == old(self).evidence(),
            final(self).witness_reads_are_total() == old(self).witness_reads_are_total(),
            r matches Err(d) ==> old(self).read_refusal(d)
                || (d.class == DiagnosticClass::Infrastructure && d.code@ == READ_ADMISSION_UNSUPPORTED@),
            forall|e: Diagnostic| #[trigger] final(self).read_refusal(e) == old(self).read_refusal(e),
            r matches Ok(read) ==> read.value == bound_in(old(self).evidence().ownership, owner),
        default_ensures
            r matches Err(d) && d.class == DiagnosticClass::Infrastructure && d.code@ == READ_ADMISSION_UNSUPPORTED@,
    {
        Err(admission_unsupported("witness ownership"))
    }

    /// Performs an admitted forward-relation membership read. The default fails closed.
    fn contains_forward_relation_admitted(&mut self,
        edge: RelationEdge,
        admission: WitnessReadAdmission,
    ) -> (r: Result<WitnessRead<bool>, Diagnostic>)
        ensures
            final(self).evidence() == old(self).evidence(),
            final(self).witness_reads_are_total() == old(self).witness_reads_are_total(),
            r matches Err(d) ==> old(self).read_refusal(d)
                || (d.class == DiagnosticClass::Infrastructure && d.code@ == READ_ADMISSION_UNSUPPORTED@),
            forall|e: Diagnostic| #[trigger] final(self).read_refusal(e) == old(self).read_refusal(e),
            r matches Ok(read) ==> read.value == old(self).evidence().forward.contains(edge),
        default_ensures
            r matches Err(d) && d.class == DiagnosticClass::Infrastructure && d.code@ == READ_ADMISSION_UNSUPPORTED@,
    {
        Err(admission_unsupported("witness forward relation"))
    }

    /// Performs an admitted owner-summary read. The default fails closed.
    fn read_owner_summary_admitted(&mut self,
        owner: OwnerKey,
        admission: WitnessReadAdmission,
    ) -> (r: Result<WitnessRead<Option<BoundOwnerSummary>>, Diagnostic>)
        ensures
            final(self).evidence() == old(self).evidence(),
            final(self).witness_reads_are_total() == old(self).witness_reads_are_total(),
            r matches Err(d) ==> old(self).read_refusal(d)
                || (d.class == DiagnosticClass::Infrastructure && d.code@ == READ_ADMISSION_UNSUPPORTED@),
            forall|e: Diagnostic| #[trigger] final(self).read_refusal(e) == old(self).read_refusal(e),
            r matches Ok(read) ==> read.value == bound_summary(old(self).evidence(), owner),
        default_ensures
            r matches Err(d) && d.class == DiagnosticClass::Infrastructure && d.code@ == READ_ADMISSION_UNSUPPORTED@,
    {
        Err(admission_unsupported("witness owner summary"))
    }

    /// Performs an admitted outgoing-relation prefix read. The default fails closed.
    fn read_outgoing_relations_admitted(&mut self,
        owner: OwnerKey,
        maximum_items: usize,
        admission: WitnessReadAdmission,
    ) -> (r: Result<WitnessRead<WitnessRelationRead>, Diagnostic>)
        ensures
            final(self).evidence() == old(self).evidence(),
            final(self).witness_reads_are_total() == old(self).witness_reads_are_total(),
            r matches Err(d) ==> old(self).read_refusal(d)
                || (d.class == DiagnosticClass::Infrastructure && d.code@ == READ_ADMISSION_UNSUPPORTED@),
            forall|e: Diagnostic| #[trigger] final(self).read_refusal(e) == old(self).read_refusal(e),
            r matches Ok(read) ==> relation_prefix_answer(old(self).evidence().forward, EdgeSelection::Outgoing(owner_endpoint(old(self).evidence().package_id, owner)), maximum_items, read.value),
        default_ensures
            r matches Err(d) && d.class == DiagnosticClass::Infrastructure && d.code@ == READ_ADMISSION_UNSUPPORTED@,
    {
        Err(admission_unsupported("witness outgoing relations"))
    }

    /// Performs an admitted incoming-relation prefix read. The default fails closed.
    fn read_incoming_relations_admitted(&mut self,
        owner: OwnerKey,
        maximum_items: usize,
        admission: WitnessReadAdmission,
    ) -> (r: Result<WitnessRead<WitnessRelationRead>, Diagnostic>)
        ensures
            final(self).evidence() == old(self).evidence(),
            final(self).witness_reads_are_total() == old(self).witness_reads_are_total(),
            r matches Err(d) ==> old(self).read_refusal(d)
                || (d.class == DiagnosticClass::Infrastructure && d.code@ == READ_ADMISSION_UNSUPPORTED@),
            forall|e: Diagnostic| #[trigger] final(self).read_refusal(e) == old(self).read_refusal(e),
            r matches Ok(read) ==> relation_prefix_answer(old(self).evidence().reverse, EdgeSelection::Incoming(owner_endpoint(old(self).evidence().package_id, owner)), maximum_items, read.value),
        default_ensures
            r matches Err(d) && d.class == DiagnosticClass::Infrastructure && d.code@ == READ_ADMISSION_UNSUPPORTED@,
    {
        Err(admission_unsupported("witness incoming relations"))
    }

    /// Performs an admitted incoming-relation prefix read within one exact relation kind.
    /// The default fails closed rather than reading an unrelated unbounded prefix.
    fn read_incoming_relations_of_kind_admitted(&mut self,
        owner: OwnerKey,
        kind: RelationKind,
        maximum_items: usize,
        admission: WitnessReadAdmission,
    ) -> (r: Result<WitnessRead<WitnessRelationRead>, Diagnostic>)
        ensures
            final(self).evidence() == old(self).evidence(),
            final(self).witness_reads_are_total() == old(self).witness_reads_are_total(),
            r matches Err(d) ==> old(self).read_refusal(d)
                || (d.class == DiagnosticClass::Infrastructure && d.code@ == READ_ADMISSION_UNSUPPORTED@),
            forall|e: Diagnostic| #[trigger] final(self).read_refusal(e) == old(self).read_refusal(e),
            r matches Ok(read) ==> relation_prefix_answer(old(self).evidence().reverse, EdgeSelection::IncomingOfKind(owner_endpoint(old(self).evidence().package_id, owner), kind), maximum_items, read.value),
        default_ensures
            r matches Err(d) && d.class == DiagnosticClass::Infrastructure && d.code@ == READ_ADMISSION_UNSUPPORTED@,
    {
        Err(admission_unsupported("witness incoming relations by kind"))
    }

    /// Performs an admitted foreign-package relation prefix read. The default fails closed.
    fn read_incoming_package_relations_admitted(&mut self,
        package: PackageId,
        maximum_items: usize,
        admission: WitnessReadAdmission,
    ) -> (r: Result<WitnessRead<WitnessRelationRead>, Diagnostic>)
        ensures
            final(self).evidence() == old(self).evidence(),
            final(self).witness_reads_are_total() == old(self).witness_reads_are_total(),
            r matches Err(d) ==> old(self).read_refusal(d)
                || (d.class == DiagnosticClass::Infrastructure && d.code@ == READ_ADMISSION_UNSUPPORTED@),
            forall|e: Diagnostic| #[trigger] final(self).read_refusal(e) == old(self).read_refusal(e),
            r matches Ok(read) ==> relation_prefix_answer(old(self).evidence().reverse, EdgeSelection::IncomingPackage(package), maximum_items, read.value),
        default_ensures
            r matches Err(d) && d.class == DiagnosticClass::Infrastructure && d.code@ == READ_ADMISSION_UNSUPPORTED@,
    {
        Err(admission_unsupported("witness package relations"))
    }

    /// Performs an admitted test-dependency prefix read. The default fails closed.
    fn read_test_dependencies_admitted(&mut self,
        test: OwnerKey,
        maximum_items: usize,
        admission: WitnessReadAdmission,
    ) -> (r: Result<WitnessRead<WitnessTestDependencyRead>, Diagnostic>)
        ensures
            final(self).evidence() == old(self).evidence(),
            final(self).witness_reads_are_total() == old(self).witness_reads_are_total(),
            r matches Err(d) ==> old(self).read_refusal(d)
                || (d.class == DiagnosticClass::Infrastructure && d.code@ == READ_ADMISSION_UNSUPPORTED@),
            forall|e: Diagnostic| #[trigger] final(self).read_refusal(e) == old(self).read_refusal(e),
        default_ensures
            r matches Err(d) && d.class == DiagnosticClass::Infrastructure && d.code@ == READ_ADMISSION_UNSUPPORTED@,
    {
        Err(admission_unsupported("witness test dependencies"))
    }
}

/// The budget code a canonical source's generic exhaustion code stands for.
pub open spec fn canonical_admission_code(code: Seq<char>) -> Seq<char> {
    if code == "persistent_map_admission_pages_read"@ {
        "change_budget_canonical_map_pages"@
    } else if code == "persistent_map_admission_entries_visited"@ {
        "change_budget_canonical_map_entries"@
    } else if code == "persistent_map_admission_bytes_read"@ || code == "object_read_bytes_exhausted"@ {
        "change_budget_canonical_bytes"@
    } else if code == "object_read_catalog_lookups_exhausted"@ {
        "change_budget_canonical_catalog_lookups"@
    } else if code == "object_read_objects_exhausted"@ {
        "change_budget_canonical_objects"@
    } else if code == READ_ADMISSION_DECODED_RECORDS@ {
        "change_budget_canonical_decoded_records"@
    } else {
        code
    }
}

/// The budget code a witness source's generic exhaustion code stands for.
pub open spec fn witness_admission_code(code: Seq<char>) -> Seq<char> {
    if code == "persistent_map_admission_pages_read"@ {
        "change_budget_witness_map_pages"@
    } else if code == "persistent_map_admission_entries_visited"@ {
        "change_budget_witness_map_entries"@
    } else if code == "persistent_map_admission_bytes_read"@ || code == "object_read_bytes_exhausted"@ {
        "change_budget_witness_bytes"@
    } else if code == "object_read_catalog_lookups_exhausted"@ {
        "change_budget_witness_catalog_lookups"@
    } else if code == "object_read_objects_exhausted"@ {
        "change_budget_witness_objects"@
    } else if code == READ_ADMISSION_DECODED_RECORDS@ {
        "change_budget_witness_decoded_records"@
    } else {
        code
    }
}

/// Renames a canonical source's generic exhaustion code to the budget dimension it exhausts.
pub fn map_canonical_admission_diagnostic(diagnostic: Diagnostic) -> (r: Diagnostic)
    ensures
        r.class == diagnostic.class,
        r.message == diagnostic.message,
        r.code@ == canonical_admission_code(diagnostic.code@),
{
    let mut diagnostic = diagnostic;
    let mapped: Option<&str> = if diagnostic.has_code("persistent_map_admission_pages_read") {
        Some("change_budget_canonical_map_pages")
    } else if diagnostic.has_code("persistent_map_admission_entries_visited") {
        Some("change_budget_canonical_map_entries")
    } else if diagnostic.has_code("persistent_map_admission_bytes_read") || diagnostic.has_code("object_read_bytes_exhausted") {
        Some("change_budget_canonical_bytes")
    } else if diagnostic.has_code("object_read_catalog_lookups_exhausted") {
        Some("change_budget_canonical_catalog_lookups")
    } else if diagnostic.has_code("object_read_objects_exhausted") {
        Some("change_budget_canonical_objects")
    } else if diagnostic.has_code(READ_ADMISSION_DECODED_RECORDS) {
        Some("change_budget_canonical_decoded_records")
    } else {
        None
    };
    if let Some(code) = mapped {
        diagnostic.code = code.to_owned();
    }
    diagnostic
}

/// Renames a witness source's generic exhaustion code to the budget dimension it exhausts.
pub fn map_witness_admission_diagnostic(diagnostic: Diagnostic) -> (r: Diagnostic)
    ensures
        r.class == diagnostic.class,
        r.message == diagnostic.message,
        r.code@ == witness_admission_code(diagnostic.code@),
{
    let mut diagnostic = diagnostic;
    let mapped: Option<&str> = if diagnostic.has_code("persistent_map_admission_pages_read") {
        Some("change_budget_witness_map_pages")
    } else if diagnostic.has_code("persistent_map_admission_entries_visited") {
        Some("change_budget_witness_map_entries")
    } else if diagnostic.has_code("persistent_map_admission_bytes_read") || diagnostic.has_code("object_read_bytes_exhausted") {
        Some("change_budget_witness_bytes")
    } else if diagnostic.has_code("object_read_catalog_lookups_exhausted") {
        Some("change_budget_witness_catalog_lookups")
    } else if diagnostic.has_code("object_read_objects_exhausted") {
        Some("change_budget_witness_objects")
    } else if diagnostic.has_code(READ_ADMISSION_DECODED_RECORDS) {
        Some("change_budget_witness_decoded_records")
    } else {
        None
    };
    if let Some(code) = mapped {
        diagnostic.code = code.to_owned();
    }
    diagnostic
}



/// Cumulative canonical-read admission over one immutable base.
///
/// The wrapper owns only request-local permission and observations. The wrapped source remains
/// the exact authority and must enforce the supplied operation-local limits before lower-level
/// map, object, byte, or decoder work.
pub struct BudgetedCanonicalBase<B> {
    base: B,
    admission: CanonicalReadAdmission,
    work: CanonicalReadWork,
}

impl<B: CanonicalBaseRead> BudgetedCanonicalBase<B> {
    /// The wrapped source.
    pub closed spec fn source(&self) -> B {
        self.base
    }

    /// The cumulative admission.
    pub closed spec fn admission(&self) -> CanonicalReadAdmission {
        self.admission
    }

    /// The work observed so far, including the initial work.
    pub closed spec fn spent(&self) -> CanonicalReadWork {
        self.work
    }

    /// Wraps `base` after checking that `initial_work` fits within `admission`.
    pub fn new(base: B, admission: CanonicalReadAdmission, initial_work: CanonicalReadWork) -> (r: Result<Self, Diagnostic>)
        ensures
            r is Ok <==> admission.admits(initial_work),
            r matches Ok(s) ==> s.source() == base && s.admission() == admission && s.spent() == initial_work,
            r matches Err(d) ==> d.class == DiagnosticClass::Resource
                && Some(d.code@) == excess_code(admission.rows(initial_work)),
    {
        admission.remaining_after(initial_work, "canonical base-read admission")?;
        Ok(BudgetedCanonicalBase { base, admission, work: initial_work })
    }

    /// The work observed so far.
    pub fn work(&self) -> (r: CanonicalReadWork)
        ensures
            r == self.spent(),
    {
        self.work
    }

    /// The wrapped source.
    pub fn base(&self) -> (r: &B)
        ensures
            *r == self.source(),
    {
        &self.base
    }

    /// What remains of the admission.
    pub fn remaining(&self) -> (r: Result<CanonicalReadAdmission, Diagnostic>)
        ensures
            r is Ok <==> self.admission().admits(self.spent()),
            r matches Ok(rest) ==> rest == self.admission().minus(self.spent()),
            r matches Err(d) ==> d.class == DiagnosticClass::Resource
                && Some(d.code@) == excess_code(self.admission().rows(self.spent())),
    {
        self.admission.remaining_after(self.work, "canonical base-read admission")
    }

    /// The admission for one more point read, or the diagnostic of an exhausted budget.
    pub fn begin_read(&self) -> (r: Result<CanonicalReadAdmission, Diagnostic>)
        ensures
            r matches Ok(rest) ==> self.admission().admits(self.spent())
                && rest == self.admission().minus(self.spent())
                && rest.admits(CanonicalReadWork::one_point()),
            r is Err ==> !self.admission().admits(self.spent())
                || !self.admission().minus(self.spent()).admits(CanonicalReadWork::one_point()),
            !self.admission().admits(self.spent()) ==> (r matches Err(d) && d.class == DiagnosticClass::Resource
                && Some(d.code@) == excess_code(self.admission().rows(self.spent()))),
            self.admission().admits(self.spent()) && !self.admission().minus(self.spent()).admits(CanonicalReadWork::one_point())
                ==> (r matches Err(d) && d.class == DiagnosticClass::Resource
                    && Some(d.code@) == excess_code(self.admission().minus(self.spent()).rows(CanonicalReadWork::one_point()))),
    {
        let remaining = self.remaining()?;
        let point = CanonicalRead::memory(()).work;
        remaining.check_work(point, "canonical point-read admission")?;
        Ok(remaining)
    }

    /// Accounts for one admitted read the source answered under `remaining`.
    pub fn finish_read<T>(
        &mut self,
        remaining: CanonicalReadAdmission,
        result: Result<CanonicalRead<T>, Diagnostic>,
    ) -> (r: Result<CanonicalRead<T>, Diagnostic>)
        ensures
            final(self).source() == old(self).source(),
            final(self).admission() == old(self).admission(),
            r matches Ok(read) ==> result == Ok::<CanonicalRead<T>, Diagnostic>(read)
                && read.work.point_reads == 1
                && remaining.admits(read.work)
                && old(self).admission().admits(old(self).spent().sum(read.work))
                && final(self).spent() == old(self).spent().sum(read.work),
            r is Err ==> final(self).spent() == old(self).spent(),
            (result matches Err(e) ==> r matches Err(d) && d.code@ == canonical_admission_code(e.code@)),
            r matches Err(d) ==> d.class == DiagnosticClass::Resource || d.class == DiagnosticClass::Corrupt
                || (result matches Err(e) && d.class == e.class && d.code@ == canonical_admission_code(e.code@)),
    {
        let read = match result {
            Ok(read) => read,
            Err(error) => return Err(map_canonical_admission_diagnostic(error)),
        };
        if read.work.point_reads != 1 {
            return Err(base_read_error(
                DiagnosticClass::Corrupt,
                "change_canonical_read_point_work",
                "admitted canonical source did not report exactly one logical point read",
            ));
        }
        match remaining.check_work(read.work, "canonical admitted source") {
            Ok(()) => {},
            Err(error) => return Err(map_canonical_admission_diagnostic(error)),
        }
        let mut work = self.work;
        work.add(read.work);
        self.admission.check_work(work, "canonical cumulative base reads")?;
        self.work = work;
        Ok(read)
    }
}

/// A budgeted base refuses reads as before while its source does.
proof fn lemma_budgeted_refusal_kept<B: CanonicalBaseRead>(earlier: BudgetedCanonicalBase<B>, later: BudgetedCanonicalBase<B>)
    requires
        forall|e: Diagnostic| #[trigger] later.source().read_refusal(e) == earlier.source().read_refusal(e),
    ensures
        forall|d: Diagnostic| #[trigger] later.read_refusal(d) == earlier.read_refusal(d),
{
    assert forall|d: Diagnostic| #[trigger] later.read_refusal(d) == earlier.read_refusal(d) by {
        if exists|e: Diagnostic| #[trigger] earlier.source().read_refusal(e) && e.class == d.class
            && canonical_admission_code(e.code@) == d.code@ {
            let e = choose|e: Diagnostic| #[trigger] earlier.source().read_refusal(e) && e.class == d.class
                && canonical_admission_code(e.code@) == d.code@;
            assert(later.source().read_refusal(e));
        }
        if exists|e: Diagnostic| #[trigger] later.source().read_refusal(e) && e.class == d.class
            && canonical_admission_code(e.code@) == d.code@ {
            let e = choose|e: Diagnostic| #[trigger] later.source().read_refusal(e) && e.class == d.class
                && canonical_admission_code(e.code@) == d.code@;
            assert(earlier.source().read_refusal(e));
        }
    }
}

impl<B: CanonicalBaseRead> CanonicalBaseRead for BudgetedCanonicalBase<B> {
    open spec fn authority(&self) -> CanonicalAuthority {
        self.source().authority()
    }

    /// A budgeted read can always be refused for want of budget.
    open spec fn reads_are_total(&self) -> bool {
        false
    }

    /// A budgeted read is refused for want of budget, for work the source misreported, or with
    /// the source's own refusal under the budget's code.
    open spec fn read_refusal(&self, d: Diagnostic) -> bool {
        ||| d.class == DiagnosticClass::Resource
        ||| d.class == DiagnosticClass::Corrupt
        ||| d.class == DiagnosticClass::Infrastructure
        ||| exists|e: Diagnostic| #[trigger] self.source().read_refusal(e) && e.class == d.class
            && canonical_admission_code(e.code@) == d.code@
    }

    /// A budgeted read reports the work of the source's read admitted under what remains of
    /// the budget.
    open spec fn owner_read_work(&self, owner: OwnerKey) -> CanonicalReadWork {
        self.source().owner_admitted_work(owner, self.admission().minus(self.spent()))
    }

    open spec fn owner_admitted_work(&self, owner: OwnerKey, admission: CanonicalReadAdmission) -> CanonicalReadWork {
        self.source().owner_admitted_work(owner, admission)
    }

    fn semantic_root(&self) -> SemanticRoot {
        self.base.semantic_root()
    }

    fn repository_id(&self) -> RepositoryId {
        self.base.repository_id()
    }

    fn package_id(&self) -> PackageId {
        self.base.package_id()
    }

    fn exact_revision(&self) -> Option<RevisionId> {
        self.base.exact_revision()
    }

    fn owner_count(&self) -> u64 {
        self.base.owner_count()
    }

    fn dependency_count(&self) -> u64 {
        self.base.dependency_count()
    }

    fn retirement_count(&self) -> u64 {
        self.base.retirement_count()
    }

    fn read_owner(&mut self, owner: OwnerKey) -> (r: Result<CanonicalRead<Option<OwnerRecord>>, Diagnostic>)
        ensures
            final(self).admission() == old(self).admission(),
            r matches Ok(read) ==> read.work.point_reads == 1
                && final(self).spent() == old(self).spent().sum(read.work)
                && old(self).admission().admits(final(self).spent()),
            r is Err ==> final(self).spent() == old(self).spent(),
            !old(self).admission().minus(old(self).spent()).admits(CanonicalReadWork::one_point())
                ==> r is Err && final(self).source() == old(self).source(),
            !old(self).admission().admits(old(self).spent()) ==> (r matches Err(d) && d.class == DiagnosticClass::Resource
                && Some(d.code@) == excess_code(old(self).admission().rows(old(self).spent()))),
            old(self).admission().admits(old(self).spent()) && !old(self).admission().minus(old(self).spent()).admits(CanonicalReadWork::one_point())
                ==> (r matches Err(d) && d.class == DiagnosticClass::Resource
                    && Some(d.code@) == excess_code(old(self).admission().minus(old(self).spent()).rows(CanonicalReadWork::one_point()))),
            r matches Ok(read) ==> old(self).admission().minus(old(self).spent()).admits(read.work),
            r matches Ok(read) ==> read.work == old(self).source().owner_admitted_work(owner, old(self).admission().minus(old(self).spent())),
    {
        let remaining = self.begin_read()?;
        let result = self.base.read_owner_admitted(owner, remaining);
        let r = self.finish_read(remaining, result);
        proof {
            lemma_budgeted_refusal_kept(*old(self), *self);
        }
        r
    }

    fn read_type_object(&mut self, digest: TypeObjectDigest) -> (r: Result<CanonicalRead<Option<TypeObject>>, Diagnostic>)
        ensures
            final(self).admission() == old(self).admission(),
            r matches Ok(read) ==> read.work.point_reads == 1
                && final(self).spent() == old(self).spent().sum(read.work)
                && old(self).admission().admits(final(self).spent()),
            r is Err ==> final(self).spent() == old(self).spent(),
            !old(self).admission().minus(old(self).spent()).admits(CanonicalReadWork::one_point())
                ==> r is Err && final(self).source() == old(self).source(),
            !old(self).admission().admits(old(self).spent()) ==> (r matches Err(d) && d.class == DiagnosticClass::Resource
                && Some(d.code@) == excess_code(old(self).admission().rows(old(self).spent()))),
            old(self).admission().admits(old(self).spent()) && !old(self).admission().minus(old(self).spent()).admits(CanonicalReadWork::one_point())
                ==> (r matches Err(d) && d.class == DiagnosticClass::Resource
                    && Some(d.code@) == excess_code(old(self).admission().minus(old(self).spent()).rows(CanonicalReadWork::one_point()))),
            r matches Ok(read) ==> old(self).admission().minus(old(self).spent()).admits(read.work),
    {
        let remaining = self.begin_read()?;
        let result = self.base.read_type_object_admitted(digest, remaining);
        let r = self.finish_read(remaining, result);
        proof {
            lemma_budgeted_refusal_kept(*old(self), *self);
        }
        r
    }

    fn read_package_interface_owner(
        &mut self,
        dependency: &DependencyRecord,
        owner: OwnerKey,
    ) -> (r: Result<CanonicalRead<Option<PackageInterfaceRecord>>, Diagnostic>)
        ensures
            final(self).admission() == old(self).admission(),
            r matches Ok(read) ==> read.work.point_reads == 1
                && final(self).spent() == old(self).spent().sum(read.work)
                && old(self).admission().admits(final(self).spent()),
            r is Err ==> final(self).spent() == old(self).spent(),
            !old(self).admission().minus(old(self).spent()).admits(CanonicalReadWork::one_point())
                ==> r is Err && final(self).source() == old(self).source(),
            !old(self).admission().admits(old(self).spent()) ==> (r matches Err(d) && d.class == DiagnosticClass::Resource
                && Some(d.code@) == excess_code(old(self).admission().rows(old(self).spent()))),
            old(self).admission().admits(old(self).spent()) && !old(self).admission().minus(old(self).spent()).admits(CanonicalReadWork::one_point())
                ==> (r matches Err(d) && d.class == DiagnosticClass::Resource
                    && Some(d.code@) == excess_code(old(self).admission().minus(old(self).spent()).rows(CanonicalReadWork::one_point()))),
            r matches Ok(read) ==> old(self).admission().minus(old(self).spent()).admits(read.work),
    {
        let remaining = self.begin_read()?;
        let result = self.base.read_package_interface_owner_admitted(dependency, owner, remaining);
        let r = self.finish_read(remaining, result);
        proof {
            lemma_budgeted_refusal_kept(*old(self), *self);
        }
        r
    }

    fn read_dependency(&mut self, package: PackageId) -> (r: Result<CanonicalRead<Option<DependencyRecord>>, Diagnostic>)
        ensures
            final(self).admission() == old(self).admission(),
            r matches Ok(read) ==> read.work.point_reads == 1
                && final(self).spent() == old(self).spent().sum(read.work)
                && old(self).admission().admits(final(self).spent()),
            r is Err ==> final(self).spent() == old(self).spent(),
            !old(self).admission().minus(old(self).spent()).admits(CanonicalReadWork::one_point())
                ==> r is Err && final(self).source() == old(self).source(),
            !old(self).admission().admits(old(self).spent()) ==> (r matches Err(d) && d.class == DiagnosticClass::Resource
                && Some(d.code@) == excess_code(old(self).admission().rows(old(self).spent()))),
            old(self).admission().admits(old(self).spent()) && !old(self).admission().minus(old(self).spent()).admits(CanonicalReadWork::one_point())
                ==> (r matches Err(d) && d.class == DiagnosticClass::Resource
                    && Some(d.code@) == excess_code(old(self).admission().minus(old(self).spent()).rows(CanonicalReadWork::one_point()))),
            r matches Ok(read) ==> old(self).admission().minus(old(self).spent()).admits(read.work),
    {
        let remaining = self.begin_read()?;
        let result = self.base.read_dependency_admitted(package, remaining);
        let r = self.finish_read(remaining, result);
        proof {
            lemma_budgeted_refusal_kept(*old(self), *self);
        }
        r
    }

    fn read_retirement(&mut self, owner: OwnerKey) -> (r: Result<CanonicalRead<Option<RetirementRecord>>, Diagnostic>)
        ensures
            final(self).admission() == old(self).admission(),
            r matches Ok(read) ==> read.work.point_reads == 1
                && final(self).spent() == old(self).spent().sum(read.work)
                && old(self).admission().admits(final(self).spent()),
            r is Err ==> final(self).spent() == old(self).spent(),
            !old(self).admission().minus(old(self).spent()).admits(CanonicalReadWork::one_point())
                ==> r is Err && final(self).source() == old(self).source(),
            !old(self).admission().admits(old(self).spent()) ==> (r matches Err(d) && d.class == DiagnosticClass::Resource
                && Some(d.code@) == excess_code(old(self).admission().rows(old(self).spent()))),
            old(self).admission().admits(old(self).spent()) && !old(self).admission().minus(old(self).spent()).admits(CanonicalReadWork::one_point())
                ==> (r matches Err(d) && d.class == DiagnosticClass::Resource
                    && Some(d.code@) == excess_code(old(self).admission().minus(old(self).spent()).rows(CanonicalReadWork::one_point()))),
            r matches Ok(read) ==> old(self).admission().minus(old(self).spent()).admits(read.work),
    {
        let remaining = self.begin_read()?;
        let result = self.base.read_retirement_admitted(owner, remaining);
        let r = self.finish_read(remaining, result);
        proof {
            lemma_budgeted_refusal_kept(*old(self), *self);
        }
        r
    }
}


/// Cumulative validation-witness read admission over one immutable witness base.
pub struct BudgetedWitnessBase<W> {
    base: W,
    admission: WitnessReadAdmission,
    work: WitnessReadWork,
}

impl<W: WitnessBaseRead> BudgetedWitnessBase<W> {
    /// The wrapped source.
    pub closed spec fn source(&self) -> W {
        self.base
    }

    /// The cumulative admission.
    pub closed spec fn admission(&self) -> WitnessReadAdmission {
        self.admission
    }

    /// The work observed so far, including the initial work.
    pub closed spec fn spent(&self) -> WitnessReadWork {
        self.work
    }

    /// Wraps `base` after checking that `initial_work` fits within `admission`.
    pub fn new(base: W, admission: WitnessReadAdmission, initial_work: WitnessReadWork) -> (r: Result<Self, Diagnostic>)
        ensures
            r is Ok <==> admission.admits(initial_work),
            r matches Ok(s) ==> s.source() == base && s.admission() == admission && s.spent() == initial_work,
            r matches Err(d) ==> d.class == DiagnosticClass::Resource
                && Some(d.code@) == excess_code(admission.rows(initial_work)),
    {
        admission.remaining_after(initial_work, "witness base-read admission")?;
        Ok(BudgetedWitnessBase { base, admission, work: initial_work })
    }

    /// The work observed so far.
    pub fn work(&self) -> (r: WitnessReadWork)
        ensures
            r == self.spent(),
    {
        self.work
    }

    /// The wrapped source.
    pub fn base(&self) -> (r: &W)
        ensures
            *r == self.source(),
    {
        &self.base
    }

    /// What remains of the admission.
    pub fn remaining(&self) -> (r: Result<WitnessReadAdmission, Diagnostic>)
        ensures
            r is Ok <==> self.admission().admits(self.spent()),
            r matches Ok(rest) ==> rest == self.admission().minus(self.spent()),
            r matches Err(d) ==> d.class == DiagnosticClass::Resource
                && Some(d.code@) == excess_code(self.admission().rows(self.spent())),
    {
        self.admission.remaining_after(self.work, "witness base-read admission")
    }

    /// The admission for one more point read, or the diagnostic of an exhausted budget.
    pub fn begin_read(&self) -> (r: Result<WitnessReadAdmission, Diagnostic>)
        ensures
            r matches Ok(rest) ==> self.admission().admits(self.spent())
                && rest == self.admission().minus(self.spent())
                && rest.admits(WitnessReadWork::point(0)),
            r is Err ==> !self.admission().admits(self.spent())
                || !self.admission().minus(self.spent()).admits(WitnessReadWork::point(0)),
            !self.admission().admits(self.spent()) ==> (r matches Err(d) && d.class == DiagnosticClass::Resource
                && Some(d.code@) == excess_code(self.admission().rows(self.spent()))),
            self.admission().admits(self.spent()) && !self.admission().minus(self.spent()).admits(WitnessReadWork::point(0))
                ==> (r matches Err(d) && d.class == DiagnosticClass::Resource
                    && Some(d.code@) == excess_code(self.admission().minus(self.spent()).rows(WitnessReadWork::point(0)))),
    {
        let remaining = self.remaining()?;
        let point = WitnessRead::memory(()).work;
        remaining.check_work(point, "witness point-read admission")?;
        Ok(remaining)
    }

    /// Accounts for one admitted read the source answered under `remaining`.
    pub fn finish_read<T>(
        &mut self,
        remaining: WitnessReadAdmission,
        result: Result<WitnessRead<T>, Diagnostic>,
    ) -> (r: Result<WitnessRead<T>, Diagnostic>)
        ensures
            final(self).source() == old(self).source(),
            final(self).admission() == old(self).admission(),
            r matches Ok(read) ==> result == Ok::<WitnessRead<T>, Diagnostic>(read)
                && read.work.point_reads == 1
                && remaining.admits(read.work)
                && old(self).admission().admits(old(self).spent().sum(read.work))
                && final(self).spent() == old(self).spent().sum(read.work),
            r is Err ==> final(self).spent() == old(self).spent(),
            (result matches Err(e) ==> r matches Err(d) && d.code@ == witness_admission_code(e.code@)),
            r matches Err(d) ==> d.class == DiagnosticClass::Resource || d.class == DiagnosticClass::Corrupt
                || (result matches Err(e) && d.class == e.class && d.code@ == witness_admission_code(e.code@)),
    {
        let read = match result {
            Ok(read) => read,
            Err(error) => return Err(map_witness_admission_diagnostic(error)),
        };
        if read.work.point_reads != 1 {
            return Err(base_read_error(
                DiagnosticClass::Corrupt,
                "change_witness_read_point_work",
                "admitted witness source did not report exactly one logical point read",
            ));
        }
        match remaining.check_work(read.work, "witness admitted source") {
            Ok(()) => {},
            Err(error) => return Err(map_witness_admission_diagnostic(error)),
        }
        let mut work = self.work;
        work.add(read.work);
        self.admission.check_work(work, "witness cumulative base reads")?;
        self.work = work;
        Ok(read)
    }
}

/// A budgeted witness refuses reads as before while its source does.
proof fn lemma_budgeted_witness_refusal_kept<W: WitnessBaseRead>(earlier: BudgetedWitnessBase<W>, later: BudgetedWitnessBase<W>)
    requires
        forall|e: Diagnostic| #[trigger] later.source().read_refusal(e) == earlier.source().read_refusal(e),
    ensures
        forall|d: Diagnostic| #[trigger] later.read_refusal(d) == earlier.read_refusal(d),
{
    assert forall|d: Diagnostic| #[trigger] later.read_refusal(d) == earlier.read_refusal(d) by {
        if exists|e: Diagnostic| #[trigger] earlier.source().read_refusal(e) && e.class == d.class
            && witness_admission_code(e.code@) == d.code@ {
            let e = choose|e: Diagnostic| #[trigger] earlier.source().read_refusal(e) && e.class == d.class
                && witness_admission_code(e.code@) == d.code@;
            assert(later.source().read_refusal(e));
        }
        if exists|e: Diagnostic| #[trigger] later.source().read_refusal(e) && e.class == d.class
            && witness_admission_code(e.code@) == d.code@ {
            let e = choose|e: Diagnostic| #[trigger] later.source().read_refusal(e) && e.class == d.class
                && witness_admission_code(e.code@) == d.code@;
            assert(earlier.source().read_refusal(e));
        }
    }
}

impl<W: WitnessBaseRead> WitnessBaseRead for BudgetedWitnessBase<W> {
    open spec fn evidence(&self) -> WitnessEvidence {
        self.source().evidence()
    }

    /// A budgeted read can always be refused for want of budget.
    open spec fn witness_reads_are_total(&self) -> bool {
        false
    }

    /// A budgeted read is refused for want of budget, for work the source misreported, or with
    /// the source's own refusal under the budget's code.
    open spec fn read_refusal(&self, d: Diagnostic) -> bool {
        ||| d.class == DiagnosticClass::Resource
        ||| d.class == DiagnosticClass::Corrupt
        ||| d.class == DiagnosticClass::Infrastructure
        ||| exists|e: Diagnostic| #[trigger] self.source().read_refusal(e) && e.class == d.class
            && witness_admission_code(e.code@) == d.code@
    }

    fn witness_manifest(&self) -> ValidationWitnessManifest {
        self.base.witness_manifest()
    }

    fn witness_repository_id(&self) -> RepositoryId {
        self.base.witness_repository_id()
    }

    fn witness_package_id(&self) -> PackageId {
        self.base.witness_package_id()
    }

    fn witness_contract_is_current(&self) -> bool {
        self.base.witness_contract_is_current()
    }

    fn owner_summary_count(&self) -> u64 {
        self.base.owner_summary_count()
    }

    fn read_namespace(&mut self, key: &NamespaceKey) -> (r: Result<WitnessRead<Option<OwnerKey>>, Diagnostic>)
        ensures
            final(self).admission() == old(self).admission(),
            r matches Ok(read) ==> read.work.point_reads == 1
                && final(self).spent() == old(self).spent().sum(read.work)
                && old(self).admission().admits(final(self).spent()),
            r is Err ==> final(self).spent() == old(self).spent(),
            !old(self).admission().minus(old(self).spent()).admits(WitnessReadWork::point(0))
                ==> r is Err && final(self).source() == old(self).source(),
            !old(self).admission().admits(old(self).spent()) ==> (r matches Err(d) && d.class == DiagnosticClass::Resource
                && Some(d.code@) == excess_code(old(self).admission().rows(old(self).spent()))),
            old(self).admission().admits(old(self).spent()) && !old(self).admission().minus(old(self).spent()).admits(WitnessReadWork::point(0))
                ==> (r matches Err(d) && d.class == DiagnosticClass::Resource
                    && Some(d.code@) == excess_code(old(self).admission().minus(old(self).spent()).rows(WitnessReadWork::point(0)))),
            r matches Ok(read) ==> old(self).admission().minus(old(self).spent()).admits(read.work),
    {
        let remaining = self.begin_read()?;
        let result = self.base.read_namespace_admitted(key, remaining);
        let r = self.finish_read(remaining, result);
        proof {
            lemma_budgeted_witness_refusal_kept(*old(self), *self);
        }
        r
    }

    fn read_ownership(&mut self, owner: OwnerKey) -> (r: Result<WitnessRead<Option<OwnershipEntry>>, Diagnostic>)
        ensures
            final(self).admission() == old(self).admission(),
            r matches Ok(read) ==> read.work.point_reads == 1
                && final(self).spent() == old(self).spent().sum(read.work)
                && old(self).admission().admits(final(self).spent()),
            r is Err ==> final(self).spent() == old(self).spent(),
            !old(self).admission().minus(old(self).spent()).admits(WitnessReadWork::point(0))
                ==> r is Err && final(self).source() == old(self).source(),
            !old(self).admission().admits(old(self).spent()) ==> (r matches Err(d) && d.class == DiagnosticClass::Resource
                && Some(d.code@) == excess_code(old(self).admission().rows(old(self).spent()))),
            old(self).admission().admits(old(self).spent()) && !old(self).admission().minus(old(self).spent()).admits(WitnessReadWork::point(0))
                ==> (r matches Err(d) && d.class == DiagnosticClass::Resource
                    && Some(d.code@) == excess_code(old(self).admission().minus(old(self).spent()).rows(WitnessReadWork::point(0)))),
            r matches Ok(read) ==> old(self).admission().minus(old(self).spent()).admits(read.work),
    {
        let remaining = self.begin_read()?;
        let result = self.base.read_ownership_admitted(owner, remaining);
        let r = self.finish_read(remaining, result);
        proof {
            lemma_budgeted_witness_refusal_kept(*old(self), *self);
        }
        r
    }

    fn contains_forward_relation(&mut self, edge: RelationEdge) -> (r: Result<WitnessRead<bool>, Diagnostic>)
        ensures
            final(self).admission() == old(self).admission(),
            r matches Ok(read) ==> read.work.point_reads == 1
                && final(self).spent() == old(self).spent().sum(read.work)
                && old(self).admission().admits(final(self).spent()),
            r is Err ==> final(self).spent() == old(self).spent(),
            !old(self).admission().minus(old(self).spent()).admits(WitnessReadWork::point(0))
                ==> r is Err && final(self).source() == old(self).source(),
            !old(self).admission().admits(old(self).spent()) ==> (r matches Err(d) && d.class == DiagnosticClass::Resource
                && Some(d.code@) == excess_code(old(self).admission().rows(old(self).spent()))),
            old(self).admission().admits(old(self).spent()) && !old(self).admission().minus(old(self).spent()).admits(WitnessReadWork::point(0))
                ==> (r matches Err(d) && d.class == DiagnosticClass::Resource
                    && Some(d.code@) == excess_code(old(self).admission().minus(old(self).spent()).rows(WitnessReadWork::point(0)))),
            r matches Ok(read) ==> old(self).admission().minus(old(self).spent()).admits(read.work),
    {
        let remaining = self.begin_read()?;
        let result = self.base.contains_forward_relation_admitted(edge, remaining);
        let r = self.finish_read(remaining, result);
        proof {
            lemma_budgeted_witness_refusal_kept(*old(self), *self);
        }
        r
    }

    fn read_owner_summary(&mut self, owner: OwnerKey) -> (r: Result<WitnessRead<Option<BoundOwnerSummary>>, Diagnostic>)
        ensures
            final(self).admission() == old(self).admission(),
            r matches Ok(read) ==> read.work.point_reads == 1
                && final(self).spent() == old(self).spent().sum(read.work)
                && old(self).admission().admits(final(self).spent()),
            r is Err ==> final(self).spent() == old(self).spent(),
            !old(self).admission().minus(old(self).spent()).admits(WitnessReadWork::point(0))
                ==> r is Err && final(self).source() == old(self).source(),
            !old(self).admission().admits(old(self).spent()) ==> (r matches Err(d) && d.class == DiagnosticClass::Resource
                && Some(d.code@) == excess_code(old(self).admission().rows(old(self).spent()))),
            old(self).admission().admits(old(self).spent()) && !old(self).admission().minus(old(self).spent()).admits(WitnessReadWork::point(0))
                ==> (r matches Err(d) && d.class == DiagnosticClass::Resource
                    && Some(d.code@) == excess_code(old(self).admission().minus(old(self).spent()).rows(WitnessReadWork::point(0)))),
            r matches Ok(read) ==> old(self).admission().minus(old(self).spent()).admits(read.work),
    {
        let remaining = self.begin_read()?;
        let result = self.base.read_owner_summary_admitted(owner, remaining);
        let r = self.finish_read(remaining, result);
        proof {
            lemma_budgeted_witness_refusal_kept(*old(self), *self);
        }
        r
    }

    fn read_outgoing_relations(&mut self, owner: OwnerKey, maximum_items: usize) -> (r: Result<WitnessRead<WitnessRelationRead>, Diagnostic>)
        ensures
            final(self).admission() == old(self).admission(),
            r matches Ok(read) ==> read.work.point_reads == 1
                && final(self).spent() == old(self).spent().sum(read.work)
                && old(self).admission().admits(final(self).spent()),
            r is Err ==> final(self).spent() == old(self).spent(),
            !old(self).admission().minus(old(self).spent()).admits(WitnessReadWork::point(0))
                ==> r is Err && final(self).source() == old(self).source(),
            !old(self).admission().admits(old(self).spent()) ==> (r matches Err(d) && d.class == DiagnosticClass::Resource
                && Some(d.code@) == excess_code(old(self).admission().rows(old(self).spent()))),
            old(self).admission().admits(old(self).spent()) && !old(self).admission().minus(old(self).spent()).admits(WitnessReadWork::point(0))
                ==> (r matches Err(d) && d.class == DiagnosticClass::Resource
                    && Some(d.code@) == excess_code(old(self).admission().minus(old(self).spent()).rows(WitnessReadWork::point(0)))),
            r matches Ok(read) ==> old(self).admission().minus(old(self).spent()).admits(read.work),
    {
        let remaining = self.begin_read()?;
        let result = self.base.read_outgoing_relations_admitted(owner, maximum_items, remaining);
        let r = self.finish_read(remaining, result);
        proof {
            lemma_budgeted_witness_refusal_kept(*old(self), *self);
        }
        r
    }

    fn read_incoming_relations(&mut self, owner: OwnerKey, maximum_items: usize) -> (r: Result<WitnessRead<WitnessRelationRead>, Diagnostic>)
        ensures
            final(self).admission() == old(self).admission(),
            r matches Ok(read) ==> read.work.point_reads == 1
                && final(self).spent() == old(self).spent().sum(read.work)
                && old(self).admission().admits(final(self).spent()),
            r is Err ==> final(self).spent() == old(self).spent(),
            !old(self).admission().minus(old(self).spent()).admits(WitnessReadWork::point(0))
                ==> r is Err && final(self).source() == old(self).source(),
            !old(self).admission().admits(old(self).spent()) ==> (r matches Err(d) && d.class == DiagnosticClass::Resource
                && Some(d.code@) == excess_code(old(self).admission().rows(old(self).spent()))),
            old(self).admission().admits(old(self).spent()) && !old(self).admission().minus(old(self).spent()).admits(WitnessReadWork::point(0))
                ==> (r matches Err(d) && d.class == DiagnosticClass::Resource
                    && Some(d.code@) == excess_code(old(self).admission().minus(old(self).spent()).rows(WitnessReadWork::point(0)))),
            r matches Ok(read) ==> old(self).admission().minus(old(self).spent()).admits(read.work),
    {
        let remaining = self.begin_read()?;
        let result = self.base.read_incoming_relations_admitted(owner, maximum_items, remaining);
        let r = self.finish_read(remaining, result);
        proof {
            lemma_budgeted_witness_refusal_kept(*old(self), *self);
        }
        r
    }

    fn read_incoming_relations_of_kind(&mut self, owner: OwnerKey, kind: RelationKind, maximum_items: usize) -> (r: Result<WitnessRead<WitnessRelationRead>, Diagnostic>)
        ensures
            final(self).admission() == old(self).admission(),
            r matches Ok(read) ==> read.work.point_reads == 1
                && final(self).spent() == old(self).spent().sum(read.work)
                && old(self).admission().admits(final(self).spent()),
            r is Err ==> final(self).spent() == old(self).spent(),
            !old(self).admission().minus(old(self).spent()).admits(WitnessReadWork::point(0))
                ==> r is Err && final(self).source() == old(self).source(),
            !old(self).admission().admits(old(self).spent()) ==> (r matches Err(d) && d.class == DiagnosticClass::Resource
                && Some(d.code@) == excess_code(old(self).admission().rows(old(self).spent()))),
            old(self).admission().admits(old(self).spent()) && !old(self).admission().minus(old(self).spent()).admits(WitnessReadWork::point(0))
                ==> (r matches Err(d) && d.class == DiagnosticClass::Resource
                    && Some(d.code@) == excess_code(old(self).admission().minus(old(self).spent()).rows(WitnessReadWork::point(0)))),
            r matches Ok(read) ==> old(self).admission().minus(old(self).spent()).admits(read.work),
    {
        let remaining = self.begin_read()?;
        let result = self.base.read_incoming_relations_of_kind_admitted(owner, kind, maximum_items, remaining);
        let r = self.finish_read(remaining, result);
        proof {
            lemma_budgeted_witness_refusal_kept(*old(self), *self);
        }
        r
    }

    fn read_incoming_package_relations(&mut self, package: PackageId, maximum_items: usize) -> (r: Result<WitnessRead<WitnessRelationRead>, Diagnostic>)
        ensures
            final(self).admission() == old(self).admission(),
            r matches Ok(read) ==> read.work.point_reads == 1
                && final(self).spent() == old(self).spent().sum(read.work)
                && old(self).admission().admits(final(self).spent()),
            r is Err ==> final(self).spent() == old(self).spent(),
            !old(self).admission().minus(old(self).spent()).admits(WitnessReadWork::point(0))
                ==> r is Err && final(self).source() == old(self).source(),
            !old(self).admission().admits(old(self).spent()) ==> (r matches Err(d) && d.class == DiagnosticClass::Resource
                && Some(d.code@) == excess_code(old(self).admission().rows(old(self).spent()))),
            old(self).admission().admits(old(self).spent()) && !old(self).admission().minus(old(self).spent()).admits(WitnessReadWork::point(0))
                ==> (r matches Err(d) && d.class == DiagnosticClass::Resource
                    && Some(d.code@) == excess_code(old(self).admission().minus(old(self).spent()).rows(WitnessReadWork::point(0)))),
            r matches Ok(read) ==> old(self).admission().minus(old(self).spent()).admits(read.work),
    {
        let remaining = self.begin_read()?;
        let result = self.base.read_incoming_package_relations_admitted(package, maximum_items, remaining);
        let r = self.finish_read(remaining, result);
        proof {
            lemma_budgeted_witness_refusal_kept(*old(self), *self);
        }
        r
    }

    fn read_test_dependencies(&mut self, test: OwnerKey, maximum_items: usize) -> (r: Result<WitnessRead<WitnessTestDependencyRead>, Diagnostic>)
        ensures
            final(self).admission() == old(self).admission(),
            r matches Ok(read) ==> read.work.point_reads == 1
                && final(self).spent() == old(self).spent().sum(read.work)
                && old(self).admission().admits(final(self).spent()),
            r is Err ==> final(self).spent() == old(self).spent(),
            !old(self).admission().minus(old(self).spent()).admits(WitnessReadWork::point(0))
                ==> r is Err && final(self).source() == old(self).source(),
            !old(self).admission().admits(old(self).spent()) ==> (r matches Err(d) && d.class == DiagnosticClass::Resource
                && Some(d.code@) == excess_code(old(self).admission().rows(old(self).spent()))),
            old(self).admission().admits(old(self).spent()) && !old(self).admission().minus(old(self).spent()).admits(WitnessReadWork::point(0))
                ==> (r matches Err(d) && d.class == DiagnosticClass::Resource
                    && Some(d.code@) == excess_code(old(self).admission().minus(old(self).spent()).rows(WitnessReadWork::point(0)))),
            r matches Ok(read) ==> old(self).admission().minus(old(self).spent()).admits(read.work),
    {
        let remaining = self.begin_read()?;
        let result = self.base.read_test_dependencies_admitted(test, maximum_items, remaining);
        let r = self.finish_read(remaining, result);
        proof {
            lemma_budgeted_witness_refusal_kept(*old(self), *self);
        }
        r
    }
}


/// Admits one in-memory canonical point read and answers it with `value`.
pub fn canonical_memory_read<T>(admission: CanonicalReadAdmission, value: T) -> (r: Result<CanonicalRead<T>, Diagnostic>)
    ensures
        r is Ok <==> admission.admits(CanonicalReadWork::one_point()),
        r matches Ok(read) ==> read.value == value && read.work == CanonicalReadWork::one_point(),
        r matches Err(d) ==> d.class == DiagnosticClass::Resource
            && Some(d.code@) == excess_code(admission.rows(CanonicalReadWork::one_point())),
{
    let read = CanonicalRead::memory(value);
    admission.check_work(read.work, "in-memory canonical point read")?;
    Ok(read)
}

/// Admits one in-memory witness point read that decoded `witness_records_decoded` records.
pub fn witness_memory_read<T>(admission: WitnessReadAdmission, witness_records_decoded: u64, value: T) -> (r: Result<WitnessRead<T>, Diagnostic>)
    ensures
        r is Ok <==> admission.admits(WitnessReadWork::point(witness_records_decoded)),
        r matches Ok(read) ==> read.value == value && read.work == WitnessReadWork::point(witness_records_decoded),
        r matches Err(d) ==> d.class == DiagnosticClass::Resource
            && Some(d.code@) == excess_code(admission.rows(WitnessReadWork::point(witness_records_decoded))),
{
    let read = WitnessRead::memory_records(value, witness_records_decoded);
    admission.check_work(read.work, "in-memory witness point read")?;
    Ok(read)
}

/// Admits the point read itself, before any record is decoded.
pub fn admit_witness_point(admission: WitnessReadAdmission) -> (r: Result<(), Diagnostic>)
    ensures
        r is Ok <==> admission.admits(WitnessReadWork::point(0)),
        r matches Err(d) ==> d.class == DiagnosticClass::Resource
            && Some(d.code@) == excess_code(admission.rows(WitnessReadWork::point(0))),
{
    let point = WitnessRead::memory(()).work;
    admission.check_work(point, "in-memory witness point read")
}

impl KernelSnapshot {
    /// The type object bound to `digest` in this package or in one of its dependencies.
    pub open spec fn type_object_spec(&self, digest: TypeObjectDigest) -> Option<TypeObject> {
        match type_in(self.types@, digest) {
            Some(object) => Some(object),
            None => type_in(self.dependency_types@, digest),
        }
    }
}

impl CanonicalBaseRead for KernelSnapshot {
    open spec fn authority(&self) -> CanonicalAuthority {
        CanonicalAuthority {
            root: self.root,
            revision: None,
            owners: Map::new(
                |owner: OwnerKey| owner_in(self.owners@, owner) is Some,
                |owner: OwnerKey| owner_in(self.owners@, owner)->0,
            ),
            types: Map::new(
                |digest: TypeObjectDigest| self.type_object_spec(digest) is Some,
                |digest: TypeObjectDigest| self.type_object_spec(digest)->0,
            ),
            interfaces: Map::new(
                |key: (PackageRevisionDigest, OwnerKey)| interface_in(self.dependency_interfaces@, key.0, key.1) is Some,
                |key: (PackageRevisionDigest, OwnerKey)| interface_in(self.dependency_interfaces@, key.0, key.1)->0,
            ),
            dependencies: Map::new(
                |package: PackageId| dependency_in(self.dependencies@, package) is Some,
                |package: PackageId| dependency_in(self.dependencies@, package)->0,
            ),
            retirements: Map::new(
                |owner: OwnerKey| retirement_in(self.retirements@, owner) is Some,
                |owner: OwnerKey| retirement_in(self.retirements@, owner)->0,
            ),
        }
    }

    /// An in-memory snapshot answers every read.
    open spec fn reads_are_total(&self) -> bool {
        true
    }

    /// An in-memory snapshot refuses only an admitted read its admission does not cover.
    open spec fn read_refusal(&self, d: Diagnostic) -> bool {
        d.class == DiagnosticClass::Resource
    }

    /// An in-memory read is one point read.
    open spec fn owner_read_work(&self, owner: OwnerKey) -> CanonicalReadWork {
        CanonicalReadWork::one_point()
    }

    open spec fn owner_admitted_work(&self, owner: OwnerKey, admission: CanonicalReadAdmission) -> CanonicalReadWork {
        CanonicalReadWork::one_point()
    }

    fn semantic_root(&self) -> (r: SemanticRoot)
        ensures
            r == self.root,
    {
        self.root
    }

    fn repository_id(&self) -> (r: RepositoryId)
        ensures
            r == self.root.repository_id,
    {
        self.root.repository_id
    }

    fn package_id(&self) -> (r: PackageId)
        ensures
            r == self.root.package_id,
    {
        self.root.package_id
    }

    fn exact_revision(&self) -> (r: Option<RevisionId>)
        ensures
            r is None,
    {
        None
    }

    fn owner_count(&self) -> (r: u64)
        ensures
            r == self.root.owners,
    {
        self.root.owners
    }

    fn dependency_count(&self) -> (r: u64)
        ensures
            r == self.root.dependencies,
    {
        self.root.dependencies
    }

    fn retirement_count(&self) -> (r: u64)
        ensures
            r == self.root.retirements,
    {
        self.root.retirements
    }

    fn read_owner(&mut self, owner: OwnerKey) -> (r: Result<CanonicalRead<Option<OwnerRecord>>, Diagnostic>)
        ensures
            *final(self) == *old(self),
            r matches Ok(read) ==> read.value == owner_in(old(self).owners@, owner)
                && read.work == CanonicalReadWork::one_point(),
            r is Ok,
    {
        proof {
            CanonicalReadAdmission::lemma_unbounded_admits(CanonicalReadWork::one_point());
        }
        self.read_owner_admitted(owner, CanonicalReadAdmission::unbounded())
    }

    fn read_owner_admitted(&mut self, owner: OwnerKey, admission: CanonicalReadAdmission) -> (r: Result<CanonicalRead<Option<OwnerRecord>>, Diagnostic>)
        ensures
            *final(self) == *old(self),
            r is Ok <==> admission.admits(CanonicalReadWork::one_point()),
            r matches Ok(read) ==> read.value == owner_in(old(self).owners@, owner)
                && read.work == CanonicalReadWork::one_point(),
    {
        canonical_memory_read(admission, find_owner(&self.owners, owner))
    }

    fn read_type_object(&mut self, digest: TypeObjectDigest) -> (r: Result<CanonicalRead<Option<TypeObject>>, Diagnostic>)
        ensures
            *final(self) == *old(self),
            r matches Ok(read) ==> read.value == old(self).type_object_spec(digest)
                && read.work == CanonicalReadWork::one_point(),
            r is Ok,
    {
        proof {
            CanonicalReadAdmission::lemma_unbounded_admits(CanonicalReadWork::one_point());
        }
        self.read_type_object_admitted(digest, CanonicalReadAdmission::unbounded())
    }

    fn read_type_object_admitted(&mut self, digest: TypeObjectDigest, admission: CanonicalReadAdmission) -> (r: Result<CanonicalRead<Option<TypeObject>>, Diagnostic>)
        ensures
            *final(self) == *old(self),
            r is Ok <==> admission.admits(CanonicalReadWork::one_point()),
            r matches Ok(read) ==> read.value == old(self).type_object_spec(digest)
                && read.work == CanonicalReadWork::one_point(),
    {
        let point = CanonicalRead::memory(()).work;
        admission.check_work(point, "in-memory canonical point read")?;
        let value = match find_type(&self.types, digest) {
            Some(object) => Some(object),
            None => find_type(&self.dependency_types, digest),
        };
        canonical_memory_read(admission, value)
    }

    fn read_package_interface_owner(&mut self, dependency: &DependencyRecord, owner: OwnerKey) -> (r: Result<CanonicalRead<Option<PackageInterfaceRecord>>, Diagnostic>)
        ensures
            *final(self) == *old(self),
            r matches Ok(read) ==> read.value == interface_in(old(self).dependency_interfaces@, dependency.package_revision, owner)
                && read.work == CanonicalReadWork::one_point(),
            r is Ok,
    {
        proof {
            CanonicalReadAdmission::lemma_unbounded_admits(CanonicalReadWork::one_point());
        }
        self.read_package_interface_owner_admitted(dependency, owner, CanonicalReadAdmission::unbounded())
    }

    fn read_package_interface_owner_admitted(&mut self, dependency: &DependencyRecord, owner: OwnerKey, admission: CanonicalReadAdmission) -> (r: Result<CanonicalRead<Option<PackageInterfaceRecord>>, Diagnostic>)
        ensures
            *final(self) == *old(self),
            r is Ok <==> admission.admits(CanonicalReadWork::one_point()),
            r matches Ok(read) ==> read.value == interface_in(old(self).dependency_interfaces@, dependency.package_revision, owner)
                && read.work == CanonicalReadWork::one_point(),
    {
        let point = CanonicalRead::memory(()).work;
        admission.check_work(point, "in-memory canonical point read")?;
        canonical_memory_read(admission, find_interface(&self.dependency_interfaces, dependency.package_revision, owner))
    }

    fn read_dependency(&mut self, package: PackageId) -> (r: Result<CanonicalRead<Option<DependencyRecord>>, Diagnostic>)
        ensures
            *final(self) == *old(self),
            r matches Ok(read) ==> read.value == dependency_in(old(self).dependencies@, package)
                && read.work == CanonicalReadWork::one_point(),
            r is Ok,
    {
        proof {
            CanonicalReadAdmission::lemma_unbounded_admits(CanonicalReadWork::one_point());
        }
        self.read_dependency_admitted(package, CanonicalReadAdmission::unbounded())
    }

    fn read_dependency_admitted(&mut self, package: PackageId, admission: CanonicalReadAdmission) -> (r: Result<CanonicalRead<Option<DependencyRecord>>, Diagnostic>)
        ensures
            *final(self) == *old(self),
            r is Ok <==> admission.admits(CanonicalReadWork::one_point()),
            r matches Ok(read) ==> read.value == dependency_in(old(self).dependencies@, package)
                && read.work == CanonicalReadWork::one_point(),
    {
        canonical_memory_read(admission, find_dependency(&self.dependencies, package))
    }

    fn read_retirement(&mut self, owner: OwnerKey) -> (r: Result<CanonicalRead<Option<RetirementRecord>>, Diagnostic>)
        ensures
            *final(self) == *old(self),
            r matches Ok(read) ==> read.value == retirement_in(old(self).retirements@, owner)
                && read.work == CanonicalReadWork::one_point(),
            r is Ok,
    {
        proof {
            CanonicalReadAdmission::lemma_unbounded_admits(CanonicalReadWork::one_point());
        }
        self.read_retirement_admitted(owner, CanonicalReadAdmission::unbounded())
    }

    fn read_retirement_admitted(&mut self, owner: OwnerKey, admission: CanonicalReadAdmission) -> (r: Result<CanonicalRead<Option<RetirementRecord>>, Diagnostic>)
        ensures
            *final(self) == *old(self),
            r is Ok <==> admission.admits(CanonicalReadWork::one_point()),
            r matches Ok(read) ==> read.value == retirement_in(old(self).retirements@, owner)
                && read.work == CanonicalReadWork::one_point(),
    {
        canonical_memory_read(admission, find_retirement(&self.retirements, owner))
    }
}


/// Which relation edges a prefix read selects.
#[derive(Clone, Copy, Debug, PartialEq, Eq, Structural)]
pub enum EdgeSelection {
    /// Edges leaving one endpoint.
    Outgoing(RelationEndpoint),
    /// Edges arriving at one endpoint.
    Incoming(RelationEndpoint),
    /// Edges of one kind arriving at one endpoint.
    IncomingOfKind(RelationEndpoint, RelationKind),
    /// Edges arriving at any owner of one package.
    IncomingPackage(PackageId),
}

impl EdgeSelection {
    pub open spec fn spec_selects(self, edge: RelationEdge) -> bool {
        match self {
            EdgeSelection::Outgoing(endpoint) => edge.source == endpoint,
            EdgeSelection::Incoming(endpoint) => edge.target == endpoint,
            EdgeSelection::IncomingOfKind(endpoint, kind) => edge.target == endpoint && edge.kind == kind,
            EdgeSelection::IncomingPackage(package) => {
                edge.target matches RelationEndpoint::Owner(exact) && exact.package == package
            },
        }
    }

    /// Whether this selection takes `edge`.
    pub fn selects(self, edge: &RelationEdge) -> (r: bool)
        ensures
            r == self.spec_selects(*edge),
    {
        match self {
            EdgeSelection::Outgoing(endpoint) => edge.source == endpoint,
            EdgeSelection::Incoming(endpoint) => edge.target == endpoint,
            EdgeSelection::IncomingOfKind(endpoint, kind) => edge.target == endpoint && edge.kind == kind,
            EdgeSelection::IncomingPackage(package) => match edge.target {
                RelationEndpoint::Owner(exact) => exact.package == package,
                RelationEndpoint::Package(_) => false,
            },
        }
    }
}

/// The selection as a predicate on edges.
pub open spec fn selection_predicate(selection: EdgeSelection) -> spec_fn(RelationEdge) -> bool {
    |edge: RelationEdge| selection.spec_selects(edge)
}

/// The edges `selection` takes, in their stored order.
pub open spec fn selected_edges(edges: Seq<RelationEdge>, selection: EdgeSelection) -> Seq<RelationEdge> {
    edges.filter(selection_predicate(selection))
}

/// The first `maximum` items of `items`, or all of them when there are fewer.
pub open spec fn bounded_prefix<A>(items: Seq<A>, maximum: nat) -> Seq<A> {
    if items.len() <= maximum {
        items
    } else {
        items.take(maximum as int)
    }
}

/// The endpoint of an owner of `package`.
pub open spec fn owner_endpoint(package: PackageId, owner: OwnerKey) -> RelationEndpoint {
    RelationEndpoint::Owner(ExactOwnerKey { package, owner })
}

/// The first `maximum_items` edges that `selection` takes, and whether it takes more.
pub fn select_prefix(edges: &Vec<RelationEdge>, selection: EdgeSelection, maximum_items: usize) -> (r: (Vec<RelationEdge>, bool))
    ensures
        r.0@ == bounded_prefix(selected_edges(edges@, selection), maximum_items as nat),
        r.1 == (selected_edges(edges@, selection).len() > maximum_items),
{
    let ghost pred = selection_predicate(selection);
    let mut prefix: Vec<RelationEdge> = Vec::new();
    let mut selected: usize = 0;
    let mut i: usize = 0;
    proof {
        reveal(Seq::filter);
        assert(edges@.subrange(0, 0) =~= Seq::<RelationEdge>::empty());
        assert(prefix@ =~= Seq::<RelationEdge>::empty());
    }
    while i < edges.len()
        invariant
            i <= edges@.len(),
            pred == selection_predicate(selection),
            selected <= i,
            selected as nat == edges@.subrange(0, i as int).filter(pred).len(),
            prefix@ == bounded_prefix(edges@.subrange(0, i as int).filter(pred), maximum_items as nat),
        decreases edges@.len() - i,
    {
        let edge = edges[i];
        let ghost before = edges@.subrange(0, i as int).filter(pred);
        proof {
            assert(edges@.subrange(0, i + 1) =~= edges@.subrange(0, i as int).push(edge));
            edges@.subrange(0, i as int).lemma_filter_push(edge, pred);
        }
        if selection.selects(&edge) {
            let ghost after = before.push(edge);
            if selected < maximum_items {
                prefix.push(edge);
                assert(prefix@ =~= bounded_prefix(after, maximum_items as nat));
            } else {
                assert(after.take(maximum_items as int) =~= before.take(maximum_items as int));
                assert(prefix@ =~= bounded_prefix(after, maximum_items as nat));
            }
            selected = selected + 1;
        }
        i = i + 1;
    }
    proof {
        assert(edges@.subrange(0, edges@.len() as int) =~= edges@);
    }
    (prefix, selected > maximum_items)
}

/// What an in-memory relation prefix read over `edges` answers.
pub open spec fn relation_prefix_read(
    edges: Seq<RelationEdge>,
    selection: EdgeSelection,
    maximum_items: usize,
    admission: WitnessReadAdmission,
    r: Result<WitnessRead<WitnessRelationRead>, Diagnostic>,
) -> bool {
    let matching = selected_edges(edges, selection);
    let returned = bounded_prefix(matching, maximum_items as nat).len();
    if !admission.admits(WitnessReadWork::point(0)) {
        r matches Err(d) && d.class == DiagnosticClass::Resource
            && Some(d.code@) == excess_code(admission.rows(WitnessReadWork::point(0)))
    } else if maximum_items == 0 || maximum_items > MAXIMUM_RELATION_PREFIX_ITEMS {
        r matches Err(d) && d.class == DiagnosticClass::Resource
            && d.code@ == "change_relation_item_budget"@
    } else if !admission.admits(WitnessReadWork::point(returned as u64)) {
        r matches Err(d) && d.class == DiagnosticClass::Resource
            && Some(d.code@) == excess_code(admission.rows(WitnessReadWork::point(returned as u64)))
    } else {
        r matches Ok(read) && read.value.edges@ == bounded_prefix(matching, maximum_items as nat)
            && read.value.truncated == (matching.len() > maximum_items)
            && read.work == WitnessReadWork::point(returned as u64)
    }
}

/// Reads a bounded prefix of the edges `selection` takes from `edges`.
pub fn read_memory_relations(
    edges: &Vec<RelationEdge>,
    selection: EdgeSelection,
    maximum_items: usize,
    admission: WitnessReadAdmission,
) -> (r: Result<WitnessRead<WitnessRelationRead>, Diagnostic>)
    ensures
        relation_prefix_read(edges@, selection, maximum_items, admission, r),
{
    admit_witness_point(admission)?;
    if maximum_items == 0 || maximum_items > MAXIMUM_RELATION_PREFIX_ITEMS {
        return Err(base_read_error(
            DiagnosticClass::Resource,
            "change_relation_item_budget",
            "relation item budget is outside the current supported range",
        ));
    }
    let (prefix, truncated) = select_prefix(edges, selection, maximum_items);
    let returned = prefix.len() as u64;
    witness_memory_read(admission, returned, WitnessRelationRead { edges: prefix, truncated })
}

/// The dependencies recorded for one test, in order.
pub open spec fn test_dependencies_of(entries: Seq<(OwnerKey, Vec<TestDependency>)>, test: OwnerKey) -> Seq<TestDependency> {
    match bound_in(entries, test) {
        Some(list) => list@,
        None => Seq::empty(),
    }
}

/// The first `maximum_items` dependencies recorded for `test`, and whether there are more.
pub fn test_dependency_prefix(entries: &Vec<(OwnerKey, Vec<TestDependency>)>, test: OwnerKey, maximum_items: usize) -> (r: (Vec<TestDependency>, bool))
    ensures
        r.0@ == bounded_prefix(test_dependencies_of(entries@, test), maximum_items as nat),
        r.1 == (test_dependencies_of(entries@, test).len() > maximum_items),
{
    let mut i: usize = 0;
    assert(entries@.subrange(0, entries@.len() as int) =~= entries@);
    while i < entries.len()
        invariant
            0 <= i <= entries@.len(),
            bound_in(entries@, test) == bound_in(entries@.subrange(i as int, entries@.len() as int), test),
        decreases entries@.len() - i,
    {
        assert(entries@.subrange(i as int, entries@.len() as int).drop_first() =~= entries@.subrange(i + 1, entries@.len() as int));
        if entries[i].0 == test {
            let list = &entries[i].1;
            let available = list.len();
            let returned = if available <= maximum_items { available } else { maximum_items };
            let mut prefix: Vec<TestDependency> = Vec::new();
            let mut k: usize = 0;
            while k < returned
                invariant
                    k <= returned <= list@.len(),
                    prefix@ == list@.take(k as int),
                decreases returned - k,
            {
                prefix.push(list[k]);
                k = k + 1;
                assert(prefix@ =~= list@.take(k as int));
            }
            assert(list@.take(list@.len() as int) =~= list@);
            return (prefix, available > maximum_items);
        }
        i = i + 1;
    }
    let empty: Vec<TestDependency> = Vec::new();
    assert(empty@ =~= bounded_prefix(test_dependencies_of(entries@, test), maximum_items as nat));
    (empty, false)
}

/// What an in-memory owner-summary read answers.
pub open spec fn owner_summary_read(
    witness: FullWitness,
    owner: OwnerKey,
    admission: WitnessReadAdmission,
    r: Result<WitnessRead<Option<BoundOwnerSummary>>, Diagnostic>,
) -> bool {
    if !admission.admits(WitnessReadWork::point(0)) {
        r matches Err(d) && d.class == DiagnosticClass::Resource
            && Some(d.code@) == excess_code(admission.rows(WitnessReadWork::point(0)))
    } else {
        match (bound_in(witness.summaries@, owner), bound_in(witness.summary_bindings@, owner)) {
            (Some(summary), Some(digest)) => if !admission.admits(WitnessReadWork::point(1)) {
                r matches Err(d) && d.class == DiagnosticClass::Resource
                    && Some(d.code@) == excess_code(admission.rows(WitnessReadWork::point(1)))
            } else if digest_of(owner_summary_bytes(summary)) != digest {
                r matches Err(d) && d.class == DiagnosticClass::Corrupt
                    && d.code@ == "change_summary_base_binding"@
            } else {
                r matches Ok(read) && read.value == Some(BoundOwnerSummary { digest, summary })
                    && read.work == WitnessReadWork::point(1)
            },
            (None, None) => r matches Ok(read) && read.value is None
                && read.work == WitnessReadWork::point(0),
            _ => r matches Err(d) && d.class == DiagnosticClass::Corrupt
                && d.code@ == "change_summary_base_missing"@,
        }
    }
}

/// What an in-memory test-dependency read answers.
pub open spec fn test_dependency_read(
    witness: FullWitness,
    test: OwnerKey,
    maximum_items: usize,
    admission: WitnessReadAdmission,
    r: Result<WitnessRead<WitnessTestDependencyRead>, Diagnostic>,
) -> bool {
    let available = test_dependencies_of(witness.test_dependencies@, test);
    let returned = bounded_prefix(available, maximum_items as nat).len();
    if !admission.admits(WitnessReadWork::point(0)) {
        r matches Err(d) && d.class == DiagnosticClass::Resource
            && Some(d.code@) == excess_code(admission.rows(WitnessReadWork::point(0)))
    } else if maximum_items == 0 || maximum_items > MAXIMUM_TEST_DEPENDENCY_PREFIX_ITEMS {
        r matches Err(d) && d.class == DiagnosticClass::Resource
            && d.code@ == "change_test_dependency_item_budget"@
    } else if !(test is Declaration) {
        r matches Err(d) && d.class == DiagnosticClass::Source
            && d.code@ == "change_test_dependency_owner"@
    } else if !admission.admits(WitnessReadWork::point(returned as u64)) {
        r matches Err(d) && d.class == DiagnosticClass::Resource
            && Some(d.code@) == excess_code(admission.rows(WitnessReadWork::point(returned as u64)))
    } else {
        r matches Ok(read) && read.value.dependencies@ == bounded_prefix(available, maximum_items as nat)
            && read.value.truncated == (available.len() > maximum_items)
            && read.work == WitnessReadWork::point(returned as u64)
    }
}

impl WitnessBaseRead for FullWitness {
    open spec fn evidence(&self) -> WitnessEvidence {
        WitnessEvidence {
            manifest: self.manifest,
            package_id: self.manifest.package_id,
            namespaces: self.namespaces@,
            ownership: self.ownership@,
            forward: self.relations@,
            reverse: self.reverse_relations@,
            summaries: self.summaries@,
            summary_bindings: self.summary_bindings@,
        }
    }

    /// An in-memory witness answers every relation read within the item range.
    open spec fn witness_reads_are_total(&self) -> bool {
        true
    }

    /// An in-memory witness refuses a read its admission or its item range does not cover, or
    /// one whose stored summary disagrees with its binding.
    open spec fn read_refusal(&self, d: Diagnostic) -> bool {
        d.class == DiagnosticClass::Resource || d.class == DiagnosticClass::Corrupt
            || d.class == DiagnosticClass::Source
    }

    fn witness_manifest(&self) -> (r: ValidationWitnessManifest)
        ensures
            r == self.manifest,
    {
        self.manifest
    }

    fn witness_repository_id(&self) -> (r: RepositoryId)
        ensures
            r == self.manifest.repository_id,
    {
        self.manifest.repository_id
    }

    fn witness_package_id(&self) -> (r: PackageId)
        ensures
            r == self.manifest.package_id,
    {
        self.manifest.package_id
    }

    fn witness_contract_is_current(&self) -> (r: bool)
        ensures
            r == (self.manifest.contract_version == crate::witness::CURRENT_WITNESS_CONTRACT),
    {
        self.manifest.contract_is_current()
    }

    fn owner_summary_count(&self) -> (r: u64)
        ensures
            r == self.manifest.owner_summaries,
    {
        self.manifest.owner_summaries
    }

    fn read_namespace(&mut self, key: &NamespaceKey) -> (r: Result<WitnessRead<Option<OwnerKey>>, Diagnostic>)
        ensures
            *final(self) == *old(self),
            r matches Ok(read) && read.value == bound_in(old(self).namespaces@, *key)
                && read.work == WitnessReadWork::point(0),
    {
        proof {
            WitnessReadAdmission::lemma_unbounded_admits(WitnessReadWork::point(0));
        }
        self.read_namespace_admitted(key, WitnessReadAdmission::unbounded())
    }

    fn read_namespace_admitted(&mut self, key: &NamespaceKey, admission: WitnessReadAdmission) -> (r: Result<WitnessRead<Option<OwnerKey>>, Diagnostic>)
        ensures
            *final(self) == *old(self),
            r is Ok <==> admission.admits(WitnessReadWork::point(0)),
            r matches Ok(read) ==> read.value == bound_in(old(self).namespaces@, *key)
                && read.work == WitnessReadWork::point(0),
            r matches Err(d) ==> d.class == DiagnosticClass::Resource
                && Some(d.code@) == excess_code(admission.rows(WitnessReadWork::point(0))),
    {
        witness_memory_read(admission, 0, find_namespace(&self.namespaces, *key))
    }

    fn read_ownership(&mut self, owner: OwnerKey) -> (r: Result<WitnessRead<Option<OwnershipEntry>>, Diagnostic>)
        ensures
            *final(self) == *old(self),
            r matches Ok(read) && read.value == bound_in(old(self).ownership@, owner)
                && read.work == WitnessReadWork::point(0),
    {
        proof {
            WitnessReadAdmission::lemma_unbounded_admits(WitnessReadWork::point(0));
        }
        self.read_ownership_admitted(owner, WitnessReadAdmission::unbounded())
    }

    fn read_ownership_admitted(&mut self, owner: OwnerKey, admission: WitnessReadAdmission) -> (r: Result<WitnessRead<Option<OwnershipEntry>>, Diagnostic>)
        ensures
            *final(self) == *old(self),
            r is Ok <==> admission.admits(WitnessReadWork::point(0)),
            r matches Ok(read) ==> read.value == bound_in(old(self).ownership@, owner)
                && read.work == WitnessReadWork::point(0),
            r matches Err(d) ==> d.class == DiagnosticClass::Resource
                && Some(d.code@) == excess_code(admission.rows(WitnessReadWork::point(0))),
    {
        witness_memory_read(admission, 0, find_ownership(&self.ownership, owner))
    }

    fn contains_forward_relation(&mut self, edge: RelationEdge) -> (r: Result<WitnessRead<bool>, Diagnostic>)
        ensures
            *final(self) == *old(self),
            r matches Ok(read) && read.value == old(self).relations@.contains(edge)
                && read.work == WitnessReadWork::point(0),
    {
        proof {
            WitnessReadAdmission::lemma_unbounded_admits(WitnessReadWork::point(0));
        }
        self.contains_forward_relation_admitted(edge, WitnessReadAdmission::unbounded())
    }

    fn contains_forward_relation_admitted(&mut self, edge: RelationEdge, admission: WitnessReadAdmission) -> (r: Result<WitnessRead<bool>, Diagnostic>)
        ensures
            *final(self) == *old(self),
            r is Ok <==> admission.admits(WitnessReadWork::point(0)),
            r matches Ok(read) ==> read.value == old(self).relations@.contains(edge)
                && read.work == WitnessReadWork::point(0),
            r matches Err(d) ==> d.class == DiagnosticClass::Resource
                && Some(d.code@) == excess_code(admission.rows(WitnessReadWork::point(0))),
    {
        witness_memory_read(admission, 0, contains_edge(&self.relations, edge))
    }

    fn read_owner_summary(&mut self, owner: OwnerKey) -> (r: Result<WitnessRead<Option<BoundOwnerSummary>>, Diagnostic>)
        ensures
            *final(self) == *old(self),
            owner_summary_read(*old(self), owner, WitnessReadAdmission::spec_unbounded(), r),
    {
        proof {
            WitnessReadAdmission::lemma_unbounded_admits(WitnessReadWork::point(0));
            WitnessReadAdmission::lemma_unbounded_admits(WitnessReadWork::point(1));
        }
        self.read_owner_summary_admitted(owner, WitnessReadAdmission::unbounded())
    }

    fn read_owner_summary_admitted(&mut self, owner: OwnerKey, admission: WitnessReadAdmission) -> (r: Result<WitnessRead<Option<BoundOwnerSummary>>, Diagnostic>)
        ensures
            *final(self) == *old(self),
            owner_summary_read(*old(self), owner, admission, r),
    {
        admit_witness_point(admission)?;
        let summary = find_summary(&self.summaries, owner);
        let digest = find_summary_binding(&self.summary_bindings, owner);
        match (summary, digest) {
            (Some(summary), Some(digest)) => {
                let one = WitnessRead::memory_records((), 1).work;
                admission.check_work(one, "in-memory witness summary read")?;
                let (actual, _) = encode_owner_summary(&summary);
                if actual != digest {
                    return Err(base_read_error(
                        DiagnosticClass::Corrupt,
                        "change_summary_base_binding",
                        "base summary object disagrees with its witness binding",
                    ));
                }
                Ok(WitnessRead::memory_records(Some(BoundOwnerSummary { digest, summary }), 1))
            },
            (None, None) => Ok(WitnessRead::memory(None)),
            _ => Err(base_read_error(
                DiagnosticClass::Corrupt,
                "change_summary_base_missing",
                "base summary object and witness binding have different domains",
            )),
        }
    }

    fn read_outgoing_relations(&mut self, owner: OwnerKey, maximum_items: usize) -> (r: Result<WitnessRead<WitnessRelationRead>, Diagnostic>)
        ensures
            *final(self) == *old(self),
            relation_prefix_read(
                old(self).relations@,
                EdgeSelection::Outgoing(owner_endpoint(old(self).manifest.package_id, owner)),
                maximum_items,
                WitnessReadAdmission::spec_unbounded(),
                r,
            ),
    {
        proof {
            assert forall|work: WitnessReadWork| WitnessReadAdmission::spec_unbounded().admits(work) by {
                WitnessReadAdmission::lemma_unbounded_admits(work);
            }
        }
        self.read_outgoing_relations_admitted(owner, maximum_items, WitnessReadAdmission::unbounded())
    }

    fn read_outgoing_relations_admitted(&mut self, owner: OwnerKey, maximum_items: usize, admission: WitnessReadAdmission) -> (r: Result<WitnessRead<WitnessRelationRead>, Diagnostic>)
        ensures
            *final(self) == *old(self),
            relation_prefix_read(
                old(self).relations@,
                EdgeSelection::Outgoing(owner_endpoint(old(self).manifest.package_id, owner)),
                maximum_items,
                admission,
                r,
            ),
    {
        let endpoint = RelationEndpoint::Owner(ExactOwnerKey { package: self.manifest.package_id, owner });
        read_memory_relations(&self.relations, EdgeSelection::Outgoing(endpoint), maximum_items, admission)
    }

    fn read_incoming_relations(&mut self, owner: OwnerKey, maximum_items: usize) -> (r: Result<WitnessRead<WitnessRelationRead>, Diagnostic>)
        ensures
            *final(self) == *old(self),
            relation_prefix_read(
                old(self).reverse_relations@,
                EdgeSelection::Incoming(owner_endpoint(old(self).manifest.package_id, owner)),
                maximum_items,
                WitnessReadAdmission::spec_unbounded(),
                r,
            ),
    {
        proof {
            assert forall|work: WitnessReadWork| WitnessReadAdmission::spec_unbounded().admits(work) by {
                WitnessReadAdmission::lemma_unbounded_admits(work);
            }
        }
        self.read_incoming_relations_admitted(owner, maximum_items, WitnessReadAdmission::unbounded())
    }

    fn read_incoming_relations_admitted(&mut self, owner: OwnerKey, maximum_items: usize, admission: WitnessReadAdmission) -> (r: Result<WitnessRead<WitnessRelationRead>, Diagnostic>)
        ensures
            *final(self) == *old(self),
            relation_prefix_read(
                old(self).reverse_relations@,
                EdgeSelection::Incoming(owner_endpoint(old(self).manifest.package_id, owner)),
                maximum_items,
                admission,
                r,
            ),
    {
        let endpoint = RelationEndpoint::Owner(ExactOwnerKey { package: self.manifest.package_id, owner });
        read_memory_relations(&self.reverse_relations, EdgeSelection::Incoming(endpoint), maximum_items, admission)
    }

    fn read_incoming_relations_of_kind(&mut self, owner: OwnerKey, kind: RelationKind, maximum_items: usize) -> (r: Result<WitnessRead<WitnessRelationRead>, Diagnostic>)
        ensures
            *final(self) == *old(self),
            relation_prefix_read(
                old(self).reverse_relations@,
                EdgeSelection::IncomingOfKind(owner_endpoint(old(self).manifest.package_id, owner), kind),
                maximum_items,
                WitnessReadAdmission::spec_unbounded(),
                r,
            ),
    {
        proof {
            assert forall|work: WitnessReadWork| WitnessReadAdmission::spec_unbounded().admits(work) by {
                WitnessReadAdmission::lemma_unbounded_admits(work);
            }
        }
        self.read_incoming_relations_of_kind_admitted(owner, kind, maximum_items, WitnessReadAdmission::unbounded())
    }

    fn read_incoming_relations_of_kind_admitted(&mut self, owner: OwnerKey, kind: RelationKind, maximum_items: usize, admission: WitnessReadAdmission) -> (r: Result<WitnessRead<WitnessRelationRead>, Diagnostic>)
        ensures
            *final(self) == *old(self),
            relation_prefix_read(
                old(self).reverse_relations@,
                EdgeSelection::IncomingOfKind(owner_endpoint(old(self).manifest.package_id, owner), kind),
                maximum_items,
                admission,
                r,
            ),
    {
        let endpoint = RelationEndpoint::Owner(ExactOwnerKey { package: self.manifest.package_id, owner });
        read_memory_relations(&self.reverse_relations, EdgeSelection::IncomingOfKind(endpoint, kind), maximum_items, admission)
    }

    fn read_incoming_package_relations(&mut self, package: PackageId, maximum_items: usize) -> (r: Result<WitnessRead<WitnessRelationRead>, Diagnostic>)
        ensures
            *final(self) == *old(self),
            relation_prefix_read(
                old(self).reverse_relations@,
                EdgeSelection::IncomingPackage(package),
                maximum_items,
                WitnessReadAdmission::spec_unbounded(),
                r,
            ),
    {
        proof {
            assert forall|work: WitnessReadWork| WitnessReadAdmission::spec_unbounded().admits(work) by {
                WitnessReadAdmission::lemma_unbounded_admits(work);
            }
        }
        self.read_incoming_package_relations_admitted(package, maximum_items, WitnessReadAdmission::unbounded())
    }

    fn read_incoming_package_relations_admitted(&mut self, package: PackageId, maximum_items: usize, admission: WitnessReadAdmission) -> (r: Result<WitnessRead<WitnessRelationRead>, Diagnostic>)
        ensures
            *final(self) == *old(self),
            relation_prefix_read(
                old(self).reverse_relations@,
                EdgeSelection::IncomingPackage(package),
                maximum_items,
                admission,
                r,
            ),
    {
        read_memory_relations(&self.reverse_relations, EdgeSelection::IncomingPackage(package), maximum_items, admission)
    }

    fn read_test_dependencies(&mut self, test: OwnerKey, maximum_items: usize) -> (r: Result<WitnessRead<WitnessTestDependencyRead>, Diagnostic>)
        ensures
            *final(self) == *old(self),
            test_dependency_read(*old(self), test, maximum_items, WitnessReadAdmission::spec_unbounded(), r),
    {
        self.read_test_dependencies_admitted(test, maximum_items, WitnessReadAdmission::unbounded())
    }

    fn read_test_dependencies_admitted(&mut self, test: OwnerKey, maximum_items: usize, admission: WitnessReadAdmission) -> (r: Result<WitnessRead<WitnessTestDependencyRead>, Diagnostic>)
        ensures
            *final(self) == *old(self),
            test_dependency_read(*old(self), test, maximum_items, admission, r),
    {
        admit_witness_point(admission)?;
        if maximum_items == 0 || maximum_items > MAXIMUM_TEST_DEPENDENCY_PREFIX_ITEMS {
            return Err(base_read_error(
                DiagnosticClass::Resource,
                "change_test_dependency_item_budget",
                "test-dependency item budget is outside the current supported range",
            ));
        }
        match test {
            OwnerKey::Declaration(_) => {},
            _ => {
                return Err(base_read_error(
                    DiagnosticClass::Source,
                    "change_test_dependency_owner",
                    "test-dependency lookup requires a declaration owner",
                ));
            },
        }
        let (dependencies, truncated) = test_dependency_prefix(&self.test_dependencies, test, maximum_items);
        let returned = dependencies.len() as u64;
        witness_memory_read(admission, returned, WitnessTestDependencyRead { dependencies, truncated })
    }
}

} // verus!
