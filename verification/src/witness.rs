//! Derived validation evidence, as plain values: ownership, namespaces, relations and summaries.

use crate::digest::ObjectDigest;
use crate::kernel::{digest_of, owner_kind_index, owner_kind_index_of, OwnerKey, OwnerKind, PackageId, RepositoryId};
use vstd::bytes::{spec_u64_to_le_bytes, u64_to_le_bytes};
use vstd::prelude::*;

verus! {

/// The witness contract version this engine reads and writes.
pub const CURRENT_WITNESS_CONTRACT: u16 = 1;

/// Key of one namespace binding: a parent owner and a name fingerprint.
#[derive(Clone, Copy, Debug, PartialEq, Eq, Structural)]
pub struct NamespaceKey {
    pub parent: OwnerKey,
    pub name: u64,
}

/// The parent of an owner in the ownership tree.
#[derive(Clone, Copy, Debug, PartialEq, Eq, Structural)]
pub enum OwnershipParent {
    Owner(OwnerKey),
    Package,
}

/// How an owner relates to its parent.
#[derive(Clone, Copy, Debug, PartialEq, Eq, Structural)]
pub enum OwnershipRole {
    /// The owner's summary is part of its parent's summary.
    Aggregated,
    /// The owner is summarized on its own.
    Independent,
}

impl OwnershipRole {
    pub open spec fn spec_aggregates_into_parent(self) -> bool {
        self == OwnershipRole::Aggregated
    }

    /// Whether this owner's summary is aggregated into its parent's.
    pub fn aggregates_into_parent(self) -> (r: bool)
        ensures
            r == self.spec_aggregates_into_parent(),
    {
        match self {
            OwnershipRole::Aggregated => true,
            OwnershipRole::Independent => false,
        }
    }
}

/// One ownership binding.
#[derive(Clone, Copy, Debug, PartialEq, Eq, Structural)]
pub struct OwnershipEntry {
    pub parent: OwnershipParent,
    pub role: OwnershipRole,
}

/// How a change to a relation's target propagates to its source.
#[derive(Clone, Copy, Debug, PartialEq, Eq, Structural)]
pub enum PropagationClass {
    Type,
    Value,
    Behavior,
    Capability,
    Target,
    Test,
    Package,
    Ownership,
    Presentation,
}

/// The kind of a semantic relation edge, in canonical order.
#[derive(Clone, Copy, Debug, PartialEq, Eq, Structural)]
pub enum RelationKind {
    TypeReference,
    ValueReference,
    FunctionCall,
    CapabilityUse,
    TargetEntry,
    TestSubject,
    PackageDependency,
    Ownership,
    Presentation,
}

impl RelationKind {
    /// The kind's position in canonical order, counted from zero.
    pub open spec fn spec_index(self) -> nat {
        match self {
            RelationKind::TypeReference => 0,
            RelationKind::ValueReference => 1,
            RelationKind::FunctionCall => 2,
            RelationKind::CapabilityUse => 3,
            RelationKind::TargetEntry => 4,
            RelationKind::TestSubject => 5,
            RelationKind::PackageDependency => 6,
            RelationKind::Ownership => 7,
            RelationKind::Presentation => 8,
        }
    }

    /// The kind's position in canonical order, counted from zero.
    pub fn index(self) -> (r: usize)
        ensures
            r == self.spec_index(),
    {
        match self {
            RelationKind::TypeReference => 0,
            RelationKind::ValueReference => 1,
            RelationKind::FunctionCall => 2,
            RelationKind::CapabilityUse => 3,
            RelationKind::TargetEntry => 4,
            RelationKind::TestSubject => 5,
            RelationKind::PackageDependency => 6,
            RelationKind::Ownership => 7,
            RelationKind::Presentation => 8,
        }
    }

    pub open spec fn spec_propagation(self) -> PropagationClass {
        match self {
            RelationKind::TypeReference => PropagationClass::Type,
            RelationKind::ValueReference => PropagationClass::Value,
            RelationKind::FunctionCall => PropagationClass::Behavior,
            RelationKind::CapabilityUse => PropagationClass::Capability,
            RelationKind::TargetEntry => PropagationClass::Target,
            RelationKind::TestSubject => PropagationClass::Test,
            RelationKind::PackageDependency => PropagationClass::Package,
            RelationKind::Ownership => PropagationClass::Ownership,
            RelationKind::Presentation => PropagationClass::Presentation,
        }
    }

    /// How a change to this relation's target propagates to its source.
    pub fn propagation(self) -> (r: PropagationClass)
        ensures
            r == self.spec_propagation(),
    {
        match self {
            RelationKind::TypeReference => PropagationClass::Type,
            RelationKind::ValueReference => PropagationClass::Value,
            RelationKind::FunctionCall => PropagationClass::Behavior,
            RelationKind::CapabilityUse => PropagationClass::Capability,
            RelationKind::TargetEntry => PropagationClass::Target,
            RelationKind::TestSubject => PropagationClass::Test,
            RelationKind::PackageDependency => PropagationClass::Package,
            RelationKind::Ownership => PropagationClass::Ownership,
            RelationKind::Presentation => PropagationClass::Presentation,
        }
    }
}

/// An owner qualified by its package.
#[derive(Clone, Copy, Debug, PartialEq, Eq, Structural)]
pub struct ExactOwnerKey {
    pub package: PackageId,
    pub owner: OwnerKey,
}

/// One end of a relation edge.
#[derive(Clone, Copy, Debug, PartialEq, Eq, Structural)]
pub enum RelationEndpoint {
    Owner(ExactOwnerKey),
    Package(PackageId),
}

/// One directed semantic relation.
#[derive(Clone, Copy, Debug, PartialEq, Eq, Structural)]
pub struct RelationEdge {
    pub source: RelationEndpoint,
    pub kind: RelationKind,
    pub target: RelationEndpoint,
}

/// One owner's summary, one fingerprint per dimension.
#[derive(Clone, Copy, Debug, PartialEq, Eq, Structural)]
pub struct OwnerSummary {
    pub kind: OwnerKind,
    pub semantic_interface: u64,
    pub implementation: u64,
    pub type_digest: u64,
    pub effect: u64,
    pub capability: u64,
    pub relations: u64,
    pub presentation: u64,
    pub test: u64,
    pub validation_dependencies: u64,
}

/// Digest of an encoded owner summary.
pub type OwnerSummaryDigest = ObjectDigest;

/// One exact dependency of a test on an owner.
#[derive(Clone, Copy, Debug, PartialEq, Eq, Structural)]
pub struct TestDependency {
    pub test: OwnerKey,
    pub dependency: ExactOwnerKey,
}

/// The manifest of one package's validation witness.
#[derive(Clone, Copy, Debug, PartialEq, Eq, Structural)]
pub struct ValidationWitnessManifest {
    pub repository_id: RepositoryId,
    pub package_id: PackageId,
    pub contract_version: u16,
    pub owner_summaries: u64,
}

impl ValidationWitnessManifest {
    /// Whether the witness was written under the current contract.
    pub fn contract_is_current(&self) -> (r: bool)
        ensures
            r == (self.contract_version == CURRENT_WITNESS_CONTRACT),
    {
        self.contract_version == CURRENT_WITNESS_CONTRACT
    }
}


/// One package's complete validation witness, held in memory.
#[derive(Clone, Debug)]
pub struct FullWitness {
    pub manifest: ValidationWitnessManifest,
    pub namespaces: Vec<(NamespaceKey, OwnerKey)>,
    pub ownership: Vec<(OwnerKey, OwnershipEntry)>,
    /// Forward relations, grouped by source.
    pub relations: Vec<RelationEdge>,
    /// Reverse relations, grouped by target.
    pub reverse_relations: Vec<RelationEdge>,
    pub summaries: Vec<(OwnerKey, OwnerSummary)>,
    /// The digest each summary is bound to.
    pub summary_bindings: Vec<(OwnerKey, OwnerSummaryDigest)>,
    pub test_dependencies: Vec<(OwnerKey, Vec<TestDependency>)>,
}

/// The canonical bytes of an owner summary.
pub open spec fn owner_summary_bytes(summary: OwnerSummary) -> Seq<u8> {
    seq![owner_kind_index(summary.kind)] + spec_u64_to_le_bytes(summary.semantic_interface)
        + spec_u64_to_le_bytes(summary.implementation) + spec_u64_to_le_bytes(summary.type_digest)
        + spec_u64_to_le_bytes(summary.effect) + spec_u64_to_le_bytes(summary.capability)
        + spec_u64_to_le_bytes(summary.relations) + spec_u64_to_le_bytes(summary.presentation)
        + spec_u64_to_le_bytes(summary.test) + spec_u64_to_le_bytes(summary.validation_dependencies)
}

fn push_u64(bytes: &mut Vec<u8>, value: u64)
    ensures
        final(bytes)@ == old(bytes)@ + spec_u64_to_le_bytes(value),
{
    let mut encoded = u64_to_le_bytes(value);
    bytes.append(&mut encoded);
}

/// Encodes an owner summary and returns its digest with its canonical bytes.
pub fn encode_owner_summary(summary: &OwnerSummary) -> (r: (OwnerSummaryDigest, Vec<u8>))
    ensures
        r.1@ == owner_summary_bytes(*summary),
        r.0 == digest_of(owner_summary_bytes(*summary)),
{
    let mut bytes: Vec<u8> = Vec::new();
    bytes.push(owner_kind_index_of(summary.kind));
    push_u64(&mut bytes, summary.semantic_interface);
    push_u64(&mut bytes, summary.implementation);
    push_u64(&mut bytes, summary.type_digest);
    push_u64(&mut bytes, summary.effect);
    push_u64(&mut bytes, summary.capability);
    push_u64(&mut bytes, summary.relations);
    push_u64(&mut bytes, summary.presentation);
    push_u64(&mut bytes, summary.test);
    push_u64(&mut bytes, summary.validation_dependencies);
    assert(bytes@ =~= owner_summary_bytes(*summary));
    (ObjectDigest::of(bytes.as_slice()), bytes)
}

/// The first value bound to a key in an association sequence.
pub open spec fn bound_in<K, V>(entries: Seq<(K, V)>, key: K) -> Option<V>
    decreases entries.len(),
{
    if entries.len() == 0 {
        None
    } else if entries[0].0 == key {
        Some(entries[0].1)
    } else {
        bound_in(entries.drop_first(), key)
    }
}

/// A binding found under a key is an entry with that key.
pub proof fn lemma_bound_in_found<K, V>(entries: Seq<(K, V)>, probe: K)
    ensures
        bound_in(entries, probe) matches Some(value) ==> exists|j: int| 0 <= j < entries.len() && entries[j] == (probe, value),
    decreases entries.len(),
{
    if entries.len() > 0 && entries[0].0 != probe {
        lemma_bound_in_found(entries.drop_first(), probe);
        if let Some(value) = bound_in(entries, probe) {
            let j = choose|j: int| 0 <= j < entries.drop_first().len() && entries.drop_first()[j] == (probe, value);
            assert(entries[j + 1] == (probe, value));
        }
    }
}

/// Looks up the owner bound to a namespace key.
pub fn find_namespace(entries: &Vec<(NamespaceKey, OwnerKey)>, key: NamespaceKey) -> (r: Option<OwnerKey>)
    ensures
        r == bound_in(entries@, key),
{
    let mut i: usize = 0;
    assert(entries@.subrange(0, entries@.len() as int) =~= entries@);
    while i < entries.len()
        invariant
            0 <= i <= entries@.len(),
            bound_in(entries@, key) == bound_in(entries@.subrange(i as int, entries@.len() as int), key),
        decreases entries@.len() - i,
    {
        assert(entries@.subrange(i as int, entries@.len() as int).drop_first() =~= entries@.subrange(i + 1, entries@.len() as int));
        if entries[i].0 == key {
            return Some(entries[i].1);
        }
        i = i + 1;
    }
    None
}

/// Looks up the ownership entry of an owner.
pub fn find_ownership(entries: &Vec<(OwnerKey, OwnershipEntry)>, key: OwnerKey) -> (r: Option<OwnershipEntry>)
    ensures
        r == bound_in(entries@, key),
{
    let mut i: usize = 0;
    assert(entries@.subrange(0, entries@.len() as int) =~= entries@);
    while i < entries.len()
        invariant
            0 <= i <= entries@.len(),
            bound_in(entries@, key) == bound_in(entries@.subrange(i as int, entries@.len() as int), key),
        decreases entries@.len() - i,
    {
        assert(entries@.subrange(i as int, entries@.len() as int).drop_first() =~= entries@.subrange(i + 1, entries@.len() as int));
        if entries[i].0 == key {
            return Some(entries[i].1);
        }
        i = i + 1;
    }
    None
}

/// Looks up the summary of an owner.
pub fn find_summary(entries: &Vec<(OwnerKey, OwnerSummary)>, key: OwnerKey) -> (r: Option<OwnerSummary>)
    ensures
        r == bound_in(entries@, key),
{
    let mut i: usize = 0;
    assert(entries@.subrange(0, entries@.len() as int) =~= entries@);
    while i < entries.len()
        invariant
            0 <= i <= entries@.len(),
            bound_in(entries@, key) == bound_in(entries@.subrange(i as int, entries@.len() as int), key),
        decreases entries@.len() - i,
    {
        assert(entries@.subrange(i as int, entries@.len() as int).drop_first() =~= entries@.subrange(i + 1, entries@.len() as int));
        if entries[i].0 == key {
            return Some(entries[i].1);
        }
        i = i + 1;
    }
    None
}

/// Looks up the digest an owner's summary is bound to.
pub fn find_summary_binding(entries: &Vec<(OwnerKey, OwnerSummaryDigest)>, key: OwnerKey) -> (r: Option<OwnerSummaryDigest>)
    ensures
        r == bound_in(entries@, key),
{
    let mut i: usize = 0;
    assert(entries@.subrange(0, entries@.len() as int) =~= entries@);
    while i < entries.len()
        invariant
            0 <= i <= entries@.len(),
            bound_in(entries@, key) == bound_in(entries@.subrange(i as int, entries@.len() as int), key),
        decreases entries@.len() - i,
    {
        assert(entries@.subrange(i as int, entries@.len() as int).drop_first() =~= entries@.subrange(i + 1, entries@.len() as int));
        if entries[i].0 == key {
            return Some(entries[i].1);
        }
        i = i + 1;
    }
    None
}

/// Whether an edge is in a relation sequence.
pub fn contains_edge(edges: &Vec<RelationEdge>, edge: RelationEdge) -> (r: bool)
    ensures
        r == edges@.contains(edge),
{
    let mut i: usize = 0;
    while i < edges.len()
        invariant
            0 <= i <= edges@.len(),
            forall|j: int| 0 <= j < i ==> edges@[j] != edge,
        decreases edges@.len() - i,
    {
        if edges[i] == edge {
            return true;
        }
        i = i + 1;
    }
    false
}

} // verus!
