//! Owner-summary dimension changes, impact reasons and their canonical order.

use crate::diagnostic::{same_text, static_message, Diagnostic, DiagnosticClass};
use crate::kernel::{owner_key_id, owner_key_id_of, owner_key_tag, owner_key_tag_of, OwnerKey, OwnerKind, PackageId};
use crate::base_read::{bound_summary, summary_binding_holds, BoundOwnerSummary, CanonicalBaseRead, WitnessBaseRead, WitnessEvidence, WitnessReadWork};
use crate::delta::candidate_owner;
use crate::base_read::CanonicalAuthority;
use crate::derived::{
    DerivedValueEdit,
    aggregation_parent, candidate_bindings, is_walk, lemma_chain_extends, lemma_on_walk_is_path, lemma_walk_distinct,
    lemma_walk_unique, on_walk, ownership_at, reaches,
    DerivedDelta,
};
use crate::delta::{CanonicalDelta, CanonicalDeltaView, DependencyEdit, OwnerEdit};
use crate::budget::ImpactAdmission;
use crate::base_read::sat_add;
use crate::overlay::KernelOverlay;
use crate::relation_view::{
    candidate_incoming, candidate_package_incoming, incoming_base, lemma_candidate_outcome_edges, package_base, relation_count,
    CandidateRelations,
};
use crate::base_read::{owner_endpoint, selected_edges, EdgeSelection};
use crate::witness::{bound_in, lemma_bound_in_found, RelationEdge, ExactOwnerKey, OwnerSummary, OwnershipEntry, OwnershipParent, PropagationClass, RelationEndpoint, RelationKind};
use std::cmp::Ordering;
use vstd::prelude::*;

verus! {

/// Which dimensions of an owner summary one summary edit changed.
#[derive(Clone, Copy, Debug, PartialEq, Eq, Structural)]
pub struct SummaryDimensionChange {
    pub created: bool,
    pub deleted: bool,
    pub semantic_interface: bool,
    pub implementation: bool,
    pub type_digest: bool,
    pub effect: bool,
    pub capability: bool,
    pub relations: bool,
    pub presentation: bool,
    pub test: bool,
    pub validation_dependencies: bool,
}

impl SummaryDimensionChange {
    /// The change of nothing.
    pub open spec fn none() -> SummaryDimensionChange {
        SummaryDimensionChange {
            created: false,
            deleted: false,
            semantic_interface: false,
            implementation: false,
            type_digest: false,
            effect: false,
            capability: false,
            relations: false,
            presentation: false,
            test: false,
            validation_dependencies: false,
        }
    }

    pub open spec fn spec_executable(self) -> bool {
        self.created || self.deleted || self.semantic_interface || self.implementation || self.type_digest
            || self.effect || self.capability || self.relations || self.test
    }

    /// Whether the change can alter executable meaning: anything but presentation or validation
    /// dependencies alone.
    pub fn executable(self) -> (r: bool)
        ensures
            r == self.spec_executable(),
    {
        self.created || self.deleted || self.semantic_interface || self.implementation || self.type_digest
            || self.effect || self.capability || self.relations || self.test
    }

    pub open spec fn spec_affects_validation(self, propagation: PropagationClass) -> bool {
        if self.created || self.deleted {
            !(propagation == PropagationClass::Ownership || propagation == PropagationClass::Presentation)
        } else {
            match propagation {
                PropagationClass::Type | PropagationClass::Value => self.semantic_interface || self.type_digest,
                PropagationClass::Behavior | PropagationClass::Capability => {
                    self.semantic_interface || self.effect || self.capability
                },
                PropagationClass::Target => self.semantic_interface || self.implementation,
                PropagationClass::Test => self.implementation || self.test,
                PropagationClass::Package => self.semantic_interface || self.implementation || self.type_digest,
                PropagationClass::Ownership | PropagationClass::Presentation => false,
            }
        }
    }

    /// Whether the change reaches a dependent through a relation that propagates `propagation`.
    pub fn affects_validation(self, propagation: PropagationClass) -> (r: bool)
        ensures
            r == self.spec_affects_validation(propagation),
    {
        if self.created || self.deleted {
            return match propagation {
                PropagationClass::Ownership | PropagationClass::Presentation => false,
                _ => true,
            };
        }
        match propagation {
            PropagationClass::Type | PropagationClass::Value => self.semantic_interface || self.type_digest,
            PropagationClass::Behavior | PropagationClass::Capability => {
                self.semantic_interface || self.effect || self.capability
            },
            PropagationClass::Target => self.semantic_interface || self.implementation,
            PropagationClass::Test => self.implementation || self.test,
            PropagationClass::Package => self.semantic_interface || self.implementation || self.type_digest,
            PropagationClass::Ownership | PropagationClass::Presentation => false,
        }
    }
}

/// Which relations a summary change reaches dependents through: a created or deleted owner
/// reaches them through every relation but ownership and presentation ones; otherwise a changed
/// interface or type digest reaches type and value dependents, a changed interface, effect or
/// capability reaches behavior and capability dependents, a changed interface or implementation
/// reaches target dependents, a changed implementation or test reaches test dependents, and a
/// changed interface, implementation or type digest reaches package dependents.
pub proof fn affects_validation_by_dimension(change: SummaryDimensionChange, propagation: PropagationClass)
    ensures
        change.spec_affects_validation(propagation) <==> {
            &&& propagation != PropagationClass::Ownership
            &&& propagation != PropagationClass::Presentation
            &&& {
                ||| change.created
                ||| change.deleted
                ||| (propagation == PropagationClass::Type || propagation == PropagationClass::Value)
                    && (change.semantic_interface || change.type_digest)
                ||| (propagation == PropagationClass::Behavior || propagation == PropagationClass::Capability)
                    && (change.semantic_interface || change.effect || change.capability)
                ||| propagation == PropagationClass::Target && (change.semantic_interface || change.implementation)
                ||| propagation == PropagationClass::Test && (change.implementation || change.test)
                ||| propagation == PropagationClass::Package
                    && (change.semantic_interface || change.implementation || change.type_digest)
            }
        },
        change.type_digest ==> change.spec_affects_validation(PropagationClass::Type)
            && change.spec_affects_validation(PropagationClass::Value)
            && change.spec_affects_validation(PropagationClass::Package),
        change.semantic_interface ==> change.spec_affects_validation(PropagationClass::Type)
            && change.spec_affects_validation(PropagationClass::Value)
            && change.spec_affects_validation(PropagationClass::Behavior)
            && change.spec_affects_validation(PropagationClass::Capability)
            && change.spec_affects_validation(PropagationClass::Target)
            && change.spec_affects_validation(PropagationClass::Package),
        !change.spec_affects_validation(PropagationClass::Ownership),
        !change.spec_affects_validation(PropagationClass::Presentation),
{
}

impl Default for SummaryDimensionChange {
    fn default() -> (r: Self)
        ensures
            r == SummaryDimensionChange::none(),
    {
        SummaryDimensionChange {
            created: false,
            deleted: false,
            semantic_interface: false,
            implementation: false,
            type_digest: false,
            effect: false,
            capability: false,
            relations: false,
            presentation: false,
            test: false,
            validation_dependencies: false,
        }
    }
}

/// One owner's summary before and after a change.
#[derive(Clone, Copy, Debug, PartialEq, Eq, Structural)]
pub struct OwnerSummaryEdit {
    pub owner: OwnerKey,
    pub before: Option<OwnerSummary>,
    pub after: Option<OwnerSummary>,
}

/// The summary edits of a set of selected owners, with the relation edges read to derive them.
#[derive(Clone, Debug)]
pub struct SummaryDelta {
    pub selected: Vec<OwnerKey>,
    pub edits: Vec<OwnerSummaryEdit>,
    pub relation_edges_read: u64,
    pub read_work: WitnessReadWork,
}

/// The dimension-wise difference of two summaries of one owner.
pub open spec fn summary_difference(before: OwnerSummary, after: OwnerSummary) -> SummaryDimensionChange {
    SummaryDimensionChange {
        semantic_interface: before.semantic_interface != after.semantic_interface,
        implementation: before.implementation != after.implementation,
        type_digest: before.type_digest != after.type_digest,
        effect: before.effect != after.effect,
        capability: before.capability != after.capability,
        relations: before.relations != after.relations,
        presentation: before.presentation != after.presentation,
        test: before.test != after.test,
        validation_dependencies: before.validation_dependencies != after.validation_dependencies,
        ..SummaryDimensionChange::none()
    }
}

/// The change one summary edit makes.
pub open spec fn dimension_change(edit: OwnerSummaryEdit) -> SummaryDimensionChange {
    match (edit.before, edit.after) {
        (None, Some(_)) => SummaryDimensionChange { created: true, ..SummaryDimensionChange::none() },
        (Some(_), None) => SummaryDimensionChange { deleted: true, ..SummaryDimensionChange::none() },
        (Some(before), Some(after)) => summary_difference(before, after),
        (None, None) => SummaryDimensionChange::none(),
    }
}

/// What one summary edit changes: a created owner is created and nothing else, a deleted owner
/// is deleted and nothing else, and an owner summarized before and after changes exactly the
/// dimensions whose digests differ; an edit that leaves the summary as it was changes nothing.
pub proof fn dimension_change_by_field(edit: OwnerSummaryEdit)
    ensures
        (edit.before is None) && (edit.after is None) ==> dimension_change(edit) == SummaryDimensionChange::none(),
        (edit.before is None) && (edit.after is Some) ==> dimension_change(edit) == (SummaryDimensionChange {
            created: true,
            ..SummaryDimensionChange::none()
        }),
        (edit.before is Some) && (edit.after is None) ==> dimension_change(edit) == (SummaryDimensionChange {
            deleted: true,
            ..SummaryDimensionChange::none()
        }),
        (edit.before is Some) && (edit.after is Some) ==> ({
            let before = edit.before->Some_0;
            let after = edit.after->Some_0;
            let change = dimension_change(edit);
            &&& !change.created && !change.deleted
            &&& change.semantic_interface == (before.semantic_interface != after.semantic_interface)
            &&& change.implementation == (before.implementation != after.implementation)
            &&& change.type_digest == (before.type_digest != after.type_digest)
            &&& change.effect == (before.effect != after.effect)
            &&& change.capability == (before.capability != after.capability)
            &&& change.relations == (before.relations != after.relations)
            &&& change.presentation == (before.presentation != after.presentation)
            &&& change.test == (before.test != after.test)
            &&& change.validation_dependencies == (before.validation_dependencies != after.validation_dependencies)
        }),
        (edit.before is Some) && edit.before == edit.after ==> dimension_change(edit) == SummaryDimensionChange::none(),
{
}

/// A change can alter executable meaning exactly when it creates or deletes the owner or changes
/// a dimension other than presentation and validation dependencies.
pub proof fn executable_by_dimension(change: SummaryDimensionChange)
    ensures
        change.spec_executable() <==> change.created || change.deleted || change.semantic_interface
            || change.implementation || change.type_digest || change.effect || change.capability
            || change.relations || change.test,
        !(SummaryDimensionChange {
            presentation: true,
            validation_dependencies: true,
            ..SummaryDimensionChange::none()
        }).spec_executable(),
{
}

/// Compares two summaries dimension by dimension.
fn compare_summaries(before: &OwnerSummary, after: &OwnerSummary) -> (r: SummaryDimensionChange)
    ensures
        r == summary_difference(*before, *after),
{
    SummaryDimensionChange {
        created: false,
        deleted: false,
        semantic_interface: before.semantic_interface != after.semantic_interface,
        implementation: before.implementation != after.implementation,
        type_digest: before.type_digest != after.type_digest,
        effect: before.effect != after.effect,
        capability: before.capability != after.capability,
        relations: before.relations != after.relations,
        presentation: before.presentation != after.presentation,
        test: before.test != after.test,
        validation_dependencies: before.validation_dependencies != after.validation_dependencies,
    }
}

/// The dimensions one summary edit changes.
pub fn summary_dimension_change(edit: &OwnerSummaryEdit) -> (r: SummaryDimensionChange)
    ensures
        r == dimension_change(*edit),
{
    match (&edit.before, &edit.after) {
        (None, Some(_)) => SummaryDimensionChange { created: true, ..SummaryDimensionChange::default() },
        (Some(_), None) => SummaryDimensionChange { deleted: true, ..SummaryDimensionChange::default() },
        (Some(before), Some(after)) => compare_summaries(before, after),
        (None, None) => SummaryDimensionChange::default(),
    }
}

/// Whether owners of `kind` carry executable meaning.
pub open spec fn spec_has_executable_meaning(kind: OwnerKind) -> bool {
    !(kind == OwnerKind::Module || kind == OwnerKind::Documentation || kind == OwnerKind::Annotation)
}

/// Whether owners of `kind` carry executable meaning.
pub fn has_executable_meaning(kind: OwnerKind) -> (r: bool)
    ensures
        r == spec_has_executable_meaning(kind),
{
    match kind {
        OwnerKind::Module | OwnerKind::Documentation | OwnerKind::Annotation => false,
        _ => true,
    }
}

/// The owner of `package` an endpoint names, if it names one.
pub open spec fn spec_local_owner(endpoint: RelationEndpoint, package: PackageId) -> Option<OwnerKey> {
    match endpoint {
        RelationEndpoint::Owner(exact) => if exact.package == package { Some(exact.owner) } else { None },
        RelationEndpoint::Package(_) => None,
    }
}

/// The owner of `package` an endpoint names, if it names one.
pub fn local_owner(endpoint: RelationEndpoint, package: PackageId) -> (r: Option<OwnerKey>)
    ensures
        r == spec_local_owner(endpoint, package),
{
    match endpoint {
        RelationEndpoint::Owner(exact) => {
            if exact.package == package {
                Some(exact.owner)
            } else {
                None
            }
        },
        RelationEndpoint::Package(_) => None,
    }
}

/// Why an owner is part of an impact plan.
#[derive(Clone, Copy, Debug, PartialEq, Eq, Structural)]
pub enum ImpactReasonKind {
    DirectSemanticChange,
    DependencyBinding,
    ValidationDependency,
    TestBehavior,
}

impl ImpactReasonKind {
    pub open spec fn spec_name(self) -> Seq<char> {
        match self {
            ImpactReasonKind::DirectSemanticChange => "direct_semantic_change"@,
            ImpactReasonKind::DependencyBinding => "dependency_binding"@,
            ImpactReasonKind::ValidationDependency => "validation_dependency"@,
            ImpactReasonKind::TestBehavior => "test_behavior"@,
        }
    }

    /// The stable name of the kind.
    pub fn name(self) -> (r: &'static str)
        ensures
            r@ == self.spec_name(),
    {
        match self {
            ImpactReasonKind::DirectSemanticChange => "direct_semantic_change",
            ImpactReasonKind::DependencyBinding => "dependency_binding",
            ImpactReasonKind::ValidationDependency => "validation_dependency",
            ImpactReasonKind::TestBehavior => "test_behavior",
        }
    }

    /// The kind with the stable name `value`, if any.
    pub fn parse(value: &str) -> (r: Option<Self>)
        ensures
            r matches Some(kind) ==> kind.spec_name() == value@,
            r is None ==> forall|kind: ImpactReasonKind| kind.spec_name() != value@,
    {
        if same_text(value, ImpactReasonKind::DirectSemanticChange.name()) {
            Some(ImpactReasonKind::DirectSemanticChange)
        } else if same_text(value, ImpactReasonKind::DependencyBinding.name()) {
            Some(ImpactReasonKind::DependencyBinding)
        } else if same_text(value, ImpactReasonKind::ValidationDependency.name()) {
            Some(ImpactReasonKind::ValidationDependency)
        } else if same_text(value, ImpactReasonKind::TestBehavior.name()) {
            Some(ImpactReasonKind::TestBehavior)
        } else {
            None
        }
    }

    /// The kind's rank in canonical reason order, counted from one.
    pub open spec fn rank(self) -> int {
        match self {
            ImpactReasonKind::DirectSemanticChange => 1,
            ImpactReasonKind::DependencyBinding => 2,
            ImpactReasonKind::ValidationDependency => 3,
            ImpactReasonKind::TestBehavior => 4,
        }
    }

    /// The kind's rank in canonical reason order, counted from one.
    pub fn order(self) -> (r: u8)
        ensures
            r == self.rank(),
    {
        match self {
            ImpactReasonKind::DirectSemanticChange => 1,
            ImpactReasonKind::DependencyBinding => 2,
            ImpactReasonKind::ValidationDependency => 3,
            ImpactReasonKind::TestBehavior => 4,
        }
    }
}

/// One reason an owner is part of an impact plan.
#[derive(Clone, Copy, Debug, PartialEq, Eq, Structural)]
pub struct ImpactReason {
    pub kind: ImpactReasonKind,
    pub source: OwnerKey,
    pub target: OwnerKey,
    pub relation: Option<RelationKind>,
}

/// The form tag of an owner key, as a rank.
pub open spec fn tag_rank(key: OwnerKey) -> int {
    owner_key_tag(key) as int
}

/// The identity of an owner key, as a rank.
pub open spec fn id_rank(key: OwnerKey) -> int {
    owner_key_id(key) as int
}

/// A relation kind's rank, counted from one; no relation ranks first.
pub open spec fn relation_rank(relation: Option<RelationKind>) -> int {
    match relation {
        Some(kind) => (kind.spec_index() + 1) as int,
        None => 0,
    }
}

/// The rank of a relation, counted from one; no relation ranks first.
pub fn relation_order(relation: Option<RelationKind>) -> (r: usize)
    ensures
        r == relation_rank(relation),
{
    match relation {
        Some(kind) => kind.index() + 1,
        None => 0,
    }
}

/// The order of two ranks.
pub open spec fn compare_ranks(a: int, b: int) -> Ordering {
    if a < b {
        Ordering::Less
    } else if a > b {
        Ordering::Greater
    } else {
        Ordering::Equal
    }
}

/// `first`, or `next` where `first` ties.
pub open spec fn then_order(first: Ordering, next: Ordering) -> Ordering {
    match first {
        Ordering::Equal => next,
        _ => first,
    }
}

/// Canonical owner-key order: by form, then by identity.
pub open spec fn owner_key_order(a: OwnerKey, b: OwnerKey) -> Ordering {
    then_order(compare_ranks(tag_rank(a), tag_rank(b)), compare_ranks(id_rank(a), id_rank(b)))
}

/// Canonical reason order: by kind, source, target, then relation.
pub open spec fn reason_order(a: ImpactReason, b: ImpactReason) -> Ordering {
    then_order(
        compare_ranks(a.kind.rank(), b.kind.rank()),
        then_order(
            owner_key_order(a.source, b.source),
            then_order(owner_key_order(a.target, b.target), compare_ranks(relation_rank(a.relation), relation_rank(b.relation))),
        ),
    )
}

/// The reverse of an order.
pub open spec fn reversed(order: Ordering) -> Ordering {
    match order {
        Ordering::Less => Ordering::Greater,
        Ordering::Equal => Ordering::Equal,
        Ordering::Greater => Ordering::Less,
    }
}

/// Compares two owner keys in canonical order.
pub fn compare_owner_keys(a: OwnerKey, b: OwnerKey) -> (r: Ordering)
    ensures
        r == owner_key_order(a, b),
{
    let tag_a = owner_key_tag_of(a);
    let tag_b = owner_key_tag_of(b);
    if tag_a < tag_b {
        return Ordering::Less;
    }
    if tag_a > tag_b {
        return Ordering::Greater;
    }
    let id_a = owner_key_id_of(a);
    let id_b = owner_key_id_of(b);
    if id_a < id_b {
        Ordering::Less
    } else if id_a > id_b {
        Ordering::Greater
    } else {
        Ordering::Equal
    }
}

impl ImpactReason {
    /// Compares two reasons in canonical order.
    pub fn logical_cmp(&self, other: &Self) -> (r: Ordering)
        ensures
            r == reason_order(*self, *other),
    {
        let kind_a = self.kind.order();
        let kind_b = other.kind.order();
        if kind_a < kind_b {
            return Ordering::Less;
        }
        if kind_a > kind_b {
            return Ordering::Greater;
        }
        match compare_owner_keys(self.source, other.source) {
            Ordering::Equal => {},
            order => return order,
        }
        match compare_owner_keys(self.target, other.target) {
            Ordering::Equal => {},
            order => return order,
        }
        let relation_a = relation_order(self.relation);
        let relation_b = relation_order(other.relation);
        if relation_a < relation_b {
            Ordering::Less
        } else if relation_a > relation_b {
            Ordering::Greater
        } else {
            Ordering::Equal
        }
    }
}

/// Distinct owner keys have distinct canonical positions.
proof fn lemma_owner_key_order_equal(a: OwnerKey, b: OwnerKey)
    ensures
        (owner_key_order(a, b) == Ordering::Equal) == (a == b),
{
}

/// Two reasons are equal in canonical order exactly when they are the same reason.
pub proof fn lemma_reason_order_equal(a: ImpactReason, b: ImpactReason)
    ensures
        (reason_order(a, b) == Ordering::Equal) == (a == b),
{
    lemma_owner_key_order_equal(a.source, b.source);
    lemma_owner_key_order_equal(a.target, b.target);
    if relation_rank(a.relation) == relation_rank(b.relation) {
        match (a.relation, b.relation) {
            (Some(x), Some(y)) => assert(x == y),
            _ => {},
        }
    }
}

/// Swapping two reasons reverses their canonical order.
pub proof fn lemma_reason_order_antisymmetric(a: ImpactReason, b: ImpactReason)
    ensures
        reason_order(b, a) == reversed(reason_order(a, b)),
{
}

/// Canonical reason order is transitive.
pub proof fn lemma_reason_order_transitive(a: ImpactReason, b: ImpactReason, c: ImpactReason)
    requires
        reason_order(a, b) == Ordering::Less,
        reason_order(b, c) == Ordering::Less,
    ensures
        reason_order(a, c) == Ordering::Less,
{
}

/// Whether `reasons` strictly increases in canonical order, so that no reason occurs twice.
pub open spec fn strictly_ordered(reasons: Seq<ImpactReason>) -> bool {
    forall|i: int, j: int|
        0 <= i < j < reasons.len() ==> reason_order(#[trigger] reasons[i], #[trigger] reasons[j]) == Ordering::Less
}

/// Whether `a` comes strictly before `b` in canonical order.
fn reason_precedes(a: &ImpactReason, b: &ImpactReason) -> (r: bool)
    ensures
        r == (reason_order(*a, *b) == Ordering::Less),
{
    match a.logical_cmp(b) {
        Ordering::Less => true,
        _ => false,
    }
}

/// A position as an integer.
pub open spec fn usize_index(p: usize) -> int {
    p as int
}

/// Inserts `reason` at its place in a strictly ordered sequence, unless it is there already.
fn insert_reason(sorted: &mut Vec<ImpactReason>, reason: ImpactReason)
    requires
        strictly_ordered(old(sorted)@),
    ensures
        strictly_ordered(final(sorted)@),
        forall|x: ImpactReason| #[trigger] final(sorted)@.contains(x) <==> (old(sorted)@.contains(x) || x == reason),
{
    let mut p: usize = 0;
    while p < sorted.len()
        invariant
            p <= sorted@.len(),
            sorted@ == old(sorted)@,
            forall|k: int| 0 <= k < p ==> reason_order(#[trigger] sorted@[k], reason) == Ordering::Less,
        ensures
            p <= sorted@.len(),
            sorted@ == old(sorted)@,
            forall|k: int| 0 <= k < p ==> reason_order(#[trigger] sorted@[k], reason) == Ordering::Less,
            p < sorted@.len() ==> reason_order(sorted@[usize_index(p)], reason) != Ordering::Less,
        decreases sorted@.len() - p,
    {
        if !reason_precedes(&sorted[p], &reason) {
            break;
        }
        p = p + 1;
    }
    if p < sorted.len() && sorted[p] == reason {
        return;
    }
    let ghost s = sorted@;
    let ghost q: int = usize_index(p);
    proof {
        if q < s.len() {
            lemma_reason_order_equal(s[q], reason);
            lemma_reason_order_antisymmetric(s[q], reason);
        }
        lemma_insert_ordered(s, q, reason);
        lemma_insert_contains(s, q, reason);
    }
    sorted.insert(p, reason);
}

/// Inserting a reason between its smaller and its greater neighbours keeps the order strict.
proof fn lemma_insert_ordered(s: Seq<ImpactReason>, q: int, reason: ImpactReason)
    requires
        strictly_ordered(s),
        0 <= q <= s.len(),
        forall|k: int| 0 <= k < q ==> reason_order(#[trigger] s[k], reason) == Ordering::Less,
        q < s.len() ==> reason_order(reason, s[q]) == Ordering::Less,
    ensures
        strictly_ordered(s.insert(q, reason)),
{
    let n = s.insert(q, reason);
    assert forall|i: int, j: int| 0 <= i < j < n.len() implies reason_order(#[trigger] n[i], #[trigger] n[j]) == Ordering::Less by {
        if j < q {
            assert(n[i] == s[i] && n[j] == s[j]);
        } else if j == q {
            assert(n[i] == s[i] && n[j] == reason);
        } else if i < q {
            assert(n[i] == s[i] && n[j] == s[j - 1]);
        } else if i == q {
            assert(n[j] == s[j - 1]);
            if j - 1 > q {
                assert(reason_order(s[q], s[j - 1]) == Ordering::Less);
                lemma_reason_order_transitive(reason, s[q], s[j - 1]);
            }
        } else {
            assert(n[i] == s[i - 1] && n[j] == s[j - 1]);
        }
    }
}

/// Inserting a reason adds exactly that reason.
proof fn lemma_insert_contains(s: Seq<ImpactReason>, q: int, reason: ImpactReason)
    requires
        0 <= q <= s.len(),
    ensures
        forall|x: ImpactReason| #[trigger] s.insert(q, reason).contains(x) <==> (s.contains(x) || x == reason),
{
    let n = s.insert(q, reason);
    assert forall|x: ImpactReason| #[trigger] n.contains(x) <==> (s.contains(x) || x == reason) by {
        if n.contains(x) {
            let k = choose|k: int| 0 <= k < n.len() && n[k] == x;
            if k < q {
                assert(s[k] == x);
            } else if k > q {
                assert(s[k - 1] == x);
            }
        }
        if s.contains(x) {
            let k = choose|k: int| 0 <= k < s.len() && s[k] == x;
            if k < q {
                assert(n[k] == x);
            } else {
                assert(n[k + 1] == x);
            }
        }
        if x == reason {
            assert(n[q] == x);
        }
    }
}

/// The distinct reasons of `reasons` in canonical order.
pub fn sort_reasons(reasons: &Vec<ImpactReason>) -> (r: Vec<ImpactReason>)
    ensures
        strictly_ordered(r@),
        forall|x: ImpactReason| #[trigger] r@.contains(x) <==> reasons@.contains(x),
{
    let mut sorted: Vec<ImpactReason> = Vec::new();
    let mut i: usize = 0;
    while i < reasons.len()
        invariant
            i <= reasons@.len(),
            strictly_ordered(sorted@),
            forall|x: ImpactReason| #[trigger] sorted@.contains(x) <==> reasons@.take(i as int).contains(x),
        decreases reasons@.len() - i,
    {
        let ghost before = sorted@;
        let ghost t = reasons@.take(i as int);
        proof {
            assert(reasons@.take(i + 1) =~= t.push(reasons@[i as int]));
        }
        insert_reason(&mut sorted, reasons[i]);
        proof {
            let u = t.push(reasons@[i as int]);
            assert forall|x: ImpactReason| #[trigger] sorted@.contains(x) <==> u.contains(x) by {
                if t.contains(x) {
                    let k = choose|k: int| 0 <= k < t.len() && t[k] == x;
                    assert(u[k] == x);
                }
                if u.contains(x) {
                    let k = choose|k: int| 0 <= k < u.len() && u[k] == x;
                    if k < t.len() {
                        assert(t[k] == x);
                    }
                }
                if x == reasons@[i as int] {
                    assert(u[t.len() as int] == x);
                }
                assert(before.contains(x) <==> t.contains(x));
            }
        }
        i = i + 1;
    }
    assert(reasons@.take(reasons@.len() as int) == reasons@);
    sorted
}

/// Work observed while planning impact.
#[derive(Clone, Copy, Debug, PartialEq, Eq, Structural)]
pub struct ImpactWork {
    pub summary_owners_examined: u64,
    pub summary_edits_examined: u64,
    pub reverse_edges_visited: u64,
    pub ownership_steps: u64,
    pub behavior_owners_visited: u64,
    pub witness_reads: WitnessReadWork,
}

impl Default for ImpactWork {
    fn default() -> (r: Self)
        ensures
            r.summary_owners_examined == 0,
            r.summary_edits_examined == 0,
            r.reverse_edges_visited == 0,
            r.ownership_steps == 0,
            r.behavior_owners_visited == 0,
            r.witness_reads == WitnessReadWork::zero(),
    {
        ImpactWork {
            summary_owners_examined: 0,
            summary_edits_examined: 0,
            reverse_edges_visited: 0,
            ownership_steps: 0,
            behavior_owners_visited: 0,
            witness_reads: WitnessReadWork::default(),
        }
    }
}

/// One deterministic impact plan: the owners to check, summarize, compile and test, with reasons.
#[derive(Clone, Debug)]
pub struct ImpactPlan {
    pub structurally_checked: Vec<OwnerKey>,
    pub semantically_checked: Vec<OwnerKey>,
    pub summary_owners: Vec<OwnerKey>,
    pub compiler_units: Vec<OwnerKey>,
    pub tests: Vec<OwnerKey>,
    pub reasons: Vec<ImpactReason>,
    pub work: ImpactWork,
}

/// The summary deltas before and after impact planning, with the plan itself.
#[derive(Clone, Debug)]
pub struct PlannedSummaries {
    pub initial: SummaryDelta,
    pub final_delta: SummaryDelta,
    pub plan: ImpactPlan,
}

/// A resource refusal of impact planning.
fn impact_resource_error(code: &str, message: &str) -> (r: Diagnostic)
    ensures
        r.class == DiagnosticClass::Resource,
        r.code@ == code@,
{
    Diagnostic::new(DiagnosticClass::Resource, code, static_message(message))
}

/// Admits `owner` into the affected frontier unless the frontier is full.
pub fn admit_affected(admitted: &mut Vec<OwnerKey>, owner: OwnerKey, maximum: u64) -> (r: Result<(), Diagnostic>)
    ensures
        old(admitted)@.contains(owner) ==> r is Ok && final(admitted)@ == old(admitted)@,
        !old(admitted)@.contains(owner) && old(admitted)@.len() < maximum ==> r is Ok
            && final(admitted)@ == old(admitted)@.push(owner),
        !old(admitted)@.contains(owner) && old(admitted)@.len() >= maximum ==> (r matches Err(d)
            && d.class == DiagnosticClass::Resource
            && d.code@ == "change_budget_affected_frontier_owners"@
            && final(admitted)@ == old(admitted)@),
{
    let mut i: usize = 0;
    while i < admitted.len()
        invariant
            i <= admitted@.len(),
            forall|j: int| 0 <= j < i ==> admitted@[j] != owner,
        decreases admitted@.len() - i,
    {
        if admitted[i] == owner {
            return Ok(());
        }
        i = i + 1;
    }
    if admitted.len() as u64 >= maximum {
        return Err(Diagnostic::new(
            DiagnosticClass::Resource,
            "change_budget_affected_frontier_owners",
            static_message("affected frontier exceeds the declared owner budget"),
        ));
    }
    admitted.push(owner);
    Ok(())
}

/// Counts one more examined summary edit unless the budget is spent.
pub fn admit_summary_edit(work: &mut ImpactWork, maximum: u64) -> (r: Result<(), Diagnostic>)
    ensures
        r is Ok <==> old(work).summary_edits_examined < maximum,
        r is Ok ==> *final(work) == (ImpactWork {
            summary_edits_examined: (old(work).summary_edits_examined + 1) as u64,
            ..*old(work)
        }),
        r matches Err(d) ==> d.code@ == "change_budget_impact_summary_edits"@ && *final(work) == *old(work),
{
    if work.summary_edits_examined >= maximum {
        return Err(impact_resource_error(
            "change_budget_impact_summary_edits",
            "impact planning exceeds the declared summary-edit budget",
        ));
    }
    work.summary_edits_examined = work.summary_edits_examined + 1;
    Ok(())
}

/// Counts one more visited behavior owner unless the budget is spent.
pub fn admit_behavior_owner(work: &mut ImpactWork, maximum: u64) -> (r: Result<(), Diagnostic>)
    ensures
        r is Ok <==> old(work).behavior_owners_visited < maximum,
        r is Ok ==> *final(work) == (ImpactWork {
            behavior_owners_visited: (old(work).behavior_owners_visited + 1) as u64,
            ..*old(work)
        }),
        r matches Err(d) ==> d.code@ == "change_budget_impact_behavior_owners"@ && *final(work) == *old(work),
{
    if work.behavior_owners_visited >= maximum {
        return Err(impact_resource_error(
            "change_budget_impact_behavior_owners",
            "impact planning exceeds the declared behavior-owner budget",
        ));
    }
    work.behavior_owners_visited = work.behavior_owners_visited + 1;
    Ok(())
}

/// Counts one more ownership step unless the budget is spent.
pub fn admit_ownership_step(work: &mut ImpactWork, maximum: u64) -> (r: Result<(), Diagnostic>)
    ensures
        r is Ok <==> old(work).ownership_steps < maximum,
        r is Ok ==> *final(work) == (ImpactWork {
            ownership_steps: (old(work).ownership_steps + 1) as u64,
            ..*old(work)
        }),
        r matches Err(d) ==> d.code@ == "change_budget_impact_ownership_steps"@ && *final(work) == *old(work),
{
    if work.ownership_steps >= maximum {
        return Err(impact_resource_error(
            "change_budget_impact_ownership_steps",
            "impact ownership traversal exceeds the declared step budget",
        ));
    }
    work.ownership_steps = work.ownership_steps + 1;
    Ok(())
}

/// Refuses an observed count above its maximum.
pub fn admit_count(code: &str, observed: u64, maximum: u64) -> (r: Result<(), Diagnostic>)
    ensures
        r is Ok <==> observed <= maximum,
        r matches Err(d) ==> d.class == DiagnosticClass::Resource && d.code@ == code@,
{
    if observed > maximum {
        return Err(impact_resource_error(code, "impact planning exceeds a declared count"));
    }
    Ok(())
}

/// The relation edges left of `maximum` after `observed`.
pub fn remaining_relations(maximum: u64, observed: u64) -> (r: Result<u64, Diagnostic>)
    ensures
        r is Ok <==> observed <= maximum,
        r matches Ok(rest) ==> rest == maximum - observed,
        r matches Err(d) ==> d.class == DiagnosticClass::Resource && d.code@ == "change_budget_relation_edges"@,
{
    if observed > maximum {
        return Err(impact_resource_error(
            "change_budget_relation_edges",
            "relation traversal exceeds the declared edge budget",
        ));
    }
    Ok(maximum - observed)
}


/// Adds `owner` to a set held as a sequence without repeats; whether it was new.
pub fn insert_owner(set: &mut Vec<OwnerKey>, owner: OwnerKey) -> (r: bool)
    ensures
        r == !old(set)@.contains(owner),
        final(set)@ == if old(set)@.contains(owner) { old(set)@ } else { old(set)@.push(owner) },
        old(set)@.no_duplicates() ==> final(set)@.no_duplicates(),
{
    if contains_owner(set, owner) {
        return false;
    }
    proof {
        lemma_push_new_owner(set@, owner);
    }
    set.push(owner);
    true
}

/// Pushing an owner that a sequence lacks keeps it free of repeats.
proof fn lemma_push_new_owner(owners: Seq<OwnerKey>, owner: OwnerKey)
    requires
        !owners.contains(owner),
    ensures
        owners.no_duplicates() ==> owners.push(owner).no_duplicates(),
{
    let pushed = owners.push(owner);
    if owners.no_duplicates() {
        assert forall|i: int, j: int| 0 <= i < pushed.len() && 0 <= j < pushed.len() && i != j implies pushed[i] != pushed[j] by {
            if i < owners.len() && j < owners.len() {
                assert(pushed[i] == owners[i] && pushed[j] == owners[j]);
            } else if i < owners.len() {
                assert(pushed[i] == owners[i]);
            } else {
                assert(pushed[j] == owners[j]);
            }
        }
    }
}

/// Whether `owner` is in `set`.
pub fn contains_owner(set: &Vec<OwnerKey>, owner: OwnerKey) -> (r: bool)
    ensures
        r == set@.contains(owner),
{
    let mut i: usize = 0;
    while i < set.len()
        invariant
            i <= set@.len(),
            forall|j: int| 0 <= j < i ==> set@[j] != owner,
        decreases set@.len() - i,
    {
        if set[i] == owner {
            return true;
        }
        i = i + 1;
    }
    false
}

/// Candidate ownership: the derived ownership edits over the base witness ownership.
struct CandidateOwnership {
    edits: Vec<(OwnerKey, Option<OwnershipEntry>)>,
    ownership: Vec<(OwnerKey, Option<OwnershipEntry>)>,
    owner_kinds: Vec<(OwnerKey, Option<OwnerKind>)>,
    work: WitnessReadWork,
}

/// The cached value of `owner`, if any.
fn cached_entry(entries: &Vec<(OwnerKey, Option<OwnershipEntry>)>, owner: OwnerKey) -> (r: Option<Option<OwnershipEntry>>)
    ensures
        r == bound_in(entries@, owner),
{
    let mut i: usize = 0;
    assert(entries@.subrange(0, entries@.len() as int) =~= entries@);
    while i < entries.len()
        invariant
            0 <= i <= entries@.len(),
            bound_in(entries@, owner) == bound_in(entries@.subrange(i as int, entries@.len() as int), owner),
        decreases entries@.len() - i,
    {
        assert(entries@.subrange(i as int, entries@.len() as int).drop_first() =~= entries@.subrange(i + 1, entries@.len() as int));
        if entries[i].0 == owner {
            return Some(entries[i].1);
        }
        i = i + 1;
    }
    None
}

/// The cached kind of `owner`, if any.
fn cached_kind(entries: &Vec<(OwnerKey, Option<OwnerKind>)>, owner: OwnerKey) -> (r: Option<Option<OwnerKind>>)
    ensures
        r == bound_in(entries@, owner),
{
    let mut i: usize = 0;
    assert(entries@.subrange(0, entries@.len() as int) =~= entries@);
    while i < entries.len()
        invariant
            0 <= i <= entries@.len(),
            bound_in(entries@, owner) == bound_in(entries@.subrange(i as int, entries@.len() as int), owner),
        decreases entries@.len() - i,
    {
        assert(entries@.subrange(i as int, entries@.len() as int).drop_first() =~= entries@.subrange(i + 1, entries@.len() as int));
        if entries[i].0 == owner {
            return Some(entries[i].1);
        }
        i = i + 1;
    }
    None
}

/// Whether the kept ownership answers of `ownership` are those of the witness `relations` reads,
/// and its candidate edits those of the delta it applies.
spec fn ownership_agrees<W: WitnessBaseRead>(ownership: CandidateOwnership, relations: CandidateRelations<W>) -> bool {
    &&& ownership.edits@ == candidate_bindings(relations.derived_delta().ownership@)
    &&& forall|i: int| 0 <= i < ownership.ownership@.len()
        ==> #[trigger] ownership.ownership@[i].1 == bound_in(relations.source().evidence().ownership, ownership.ownership@[i].0)
    &&& forall|i: int| 0 <= i < ownership.owner_kinds@.len()
        ==> #[trigger] ownership.owner_kinds@[i].1 == summary_kind(bound_summary(relations.source().evidence(), ownership.owner_kinds@[i].0))
}

/// The kind a base summary gives its owner.
pub open spec fn summary_kind(summary: Option<BoundOwnerSummary>) -> Option<OwnerKind> {
    match summary {
        Some(bound) => Some(bound.summary.kind),
        None => None,
    }
}

/// The candidate kind of `owner`: that of its candidate record, else that of its base summary.
pub open spec fn candidate_kind(
    authority: CanonicalAuthority,
    delta: CanonicalDeltaView,
    evidence: WitnessEvidence,
    owner: OwnerKey,
) -> Option<OwnerKind> {
    match candidate_owner(authority, delta, owner) {
        Some(record) => Some(record.kind),
        None => summary_kind(bound_summary(evidence, owner)),
    }
}

impl CandidateOwnership {
    fn new(derived: &DerivedDelta) -> (r: Self)
        ensures
            r.work == WitnessReadWork::zero(),
            r.edits@ == candidate_bindings(derived.ownership@),
            r.ownership@.len() == 0,
            r.owner_kinds@.len() == 0,
    {
        let mut edits: Vec<(OwnerKey, Option<OwnershipEntry>)> = Vec::new();
        let mut i: usize = 0;
        while i < derived.ownership.len()
            invariant
                i <= derived.ownership@.len(),
                edits@ == candidate_bindings(derived.ownership@.take(i as int)),
            decreases derived.ownership@.len() - i,
        {
            let edit = derived.ownership[i];
            edits.push((edit.key, edit.after));
            i = i + 1;
            assert(edits@ =~= candidate_bindings(derived.ownership@.take(i as int)));
        }
        assert(derived.ownership@.take(derived.ownership@.len() as int) =~= derived.ownership@);
        CandidateOwnership { edits, ownership: Vec::new(), owner_kinds: Vec::new(), work: WitnessReadWork::default() }
    }

    /// The base ownership of `owner`.
    fn before<W: WitnessBaseRead>(&mut self, relations: &mut CandidateRelations<W>, owner: OwnerKey) -> (r: Result<Option<OwnershipEntry>, Diagnostic>)
        requires
            old(relations).wf(),
            ownership_agrees(*old(self), *old(relations)),
        ensures
            old(relations).evolves_to(final(relations)),
            ownership_agrees(*final(self), *final(relations)),
            r matches Ok(entry) ==> entry == bound_in(old(relations).source().evidence().ownership, owner),
            old(relations).source().witness_reads_are_total() ==> r is Ok,
    {
        if let Some(entry) = cached_entry(&self.ownership, owner) {
            proof {
                lemma_bound_in_found(self.ownership@, owner);
                let j = choose|j: int| 0 <= j < self.ownership@.len() && self.ownership@[j] == (owner, entry);
                assert(self.ownership@[j].1 == bound_in(relations.source().evidence().ownership, owner));
            }
            return Ok(entry);
        }
        let read = relations.read_base_ownership(owner)?;
        self.work.add(read.work);
        self.ownership.push((owner, read.value));
        Ok(read.value)
    }

    /// The candidate ownership of `owner`: the derived edit where there is one, else the base.
    fn candidate<W: WitnessBaseRead>(&mut self, relations: &mut CandidateRelations<W>, owner: OwnerKey) -> (r: Result<Option<OwnershipEntry>, Diagnostic>)
        requires
            old(relations).wf(),
            ownership_agrees(*old(self), *old(relations)),
        ensures
            old(relations).evolves_to(final(relations)),
            ownership_agrees(*final(self), *final(relations)),
            r matches Ok(entry) ==> entry == ownership_at(
                true,
                old(relations).derived_delta().ownership@,
                old(relations).source().evidence().ownership,
                owner,
            ),
            old(relations).source().witness_reads_are_total() ==> r is Ok,
    {
        match cached_entry(&self.edits, owner) {
            Some(entry) => Ok(entry),
            None => self.before(relations, owner),
        }
    }

    /// The candidate kind of `owner`: from its candidate record, else from its base summary.
    fn owner_kind<B: CanonicalBaseRead, W: WitnessBaseRead>(
        &mut self,
        owner: OwnerKey,
        overlay: &mut KernelOverlay<B>,
        relations: &mut CandidateRelations<W>,
    ) -> (r: Result<Option<OwnerKind>, Diagnostic>)
        requires
            old(overlay).wf(),
            old(relations).wf(),
            ownership_agrees(*old(self), *old(relations)),
        ensures
            old(overlay).evolves_to(final(overlay)),
            old(relations).evolves_to(final(relations)),
            ownership_agrees(*final(self), *final(relations)),
            r matches Ok(kind) ==> kind == candidate_kind(
                old(overlay).base_authority(),
                old(overlay).delta_view(),
                old(relations).source().evidence(),
                owner,
            ),
            old(overlay).source().reads_are_total() && old(relations).source().witness_reads_are_total()
                && (candidate_owner(old(overlay).base_authority(), old(overlay).delta_view(), owner) is Some
                    || summary_binding_holds(old(relations).source().evidence(), owner)) ==> r is Ok,
    {
        if let Some(record) = overlay.owner(owner)? {
            return Ok(Some(record.kind));
        }
        if let Some(kind) = cached_kind(&self.owner_kinds, owner) {
            proof {
                lemma_bound_in_found(self.owner_kinds@, owner);
                let j = choose|j: int| 0 <= j < self.owner_kinds@.len() && self.owner_kinds@[j] == (owner, kind);
                assert(self.owner_kinds@[j].1 == summary_kind(bound_summary(relations.source().evidence(), owner)));
            }
            return Ok(kind);
        }
        let read = relations.read_base_owner_summary(owner)?;
        self.work.add(read.work);
        let kind = match read.value {
            Some(bound) => Some(bound.summary.kind),
            None => None,
        };
        self.owner_kinds.push((owner, kind));
        Ok(kind)
    }
}

/// Whether every owner of `inner` is in `outer`.
pub open spec fn within(inner: Seq<OwnerKey>, outer: Seq<OwnerKey>) -> bool {
    forall|i: int| 0 <= i < inner.len() ==> outer.contains(#[trigger] inner[i])
}

/// `later` keeps every owner of `earlier`.
pub open spec fn grows(earlier: Seq<OwnerKey>, later: Seq<OwnerKey>) -> bool {
    forall|owner: OwnerKey| earlier.contains(owner) ==> #[trigger] later.contains(owner)
}

/// Admits `owner` and adds it to `set`, keeping `set` within the admitted owners.
fn admit_into(
    set: &mut Vec<OwnerKey>,
    admitted: &mut Vec<OwnerKey>,
    owner: OwnerKey,
    maximum: u64,
) -> (r: Result<(), Diagnostic>)
    requires
        within(old(set)@, old(admitted)@),
        old(admitted)@.len() <= maximum,
    ensures
        within(final(set)@, final(admitted)@),
        final(admitted)@.len() <= maximum,
        grows(old(set)@, final(set)@),
        grows(old(admitted)@, final(admitted)@),
        old(set)@.no_duplicates() ==> final(set)@.no_duplicates(),
        r is Ok ==> final(set)@.contains(owner),
        r is Ok <==> old(admitted)@.contains(owner) || old(admitted)@.len() < maximum,
        r is Ok ==> final(admitted)@ == (if old(admitted)@.contains(owner) { old(admitted)@ } else { old(admitted)@.push(owner) })
            && final(set)@ == (if old(set)@.contains(owner) { old(set)@ } else { old(set)@.push(owner) }),
        r matches Err(d) ==> d.class == DiagnosticClass::Resource
            && d.code@ == "change_budget_affected_frontier_owners"@
            && final(admitted)@ == old(admitted)@
            && final(set)@ == old(set)@,
{
    admit_affected(admitted, owner, maximum)?;
    insert_owner(set, owner);
    proof {
        if !old(admitted)@.contains(owner) {
            assert(admitted@[admitted@.len() - 1] == owner);
        }
        assert(admitted@.contains(owner));
        if !old(set)@.contains(owner) {
            assert(set@[set@.len() - 1] == owner);
        }
        assert(set@.contains(owner));
        assert forall|o: OwnerKey| old(set)@.contains(o) implies #[trigger] set@.contains(o) by {
            let k = choose|k: int| 0 <= k < old(set)@.len() && old(set)@[k] == o;
            assert(set@[k] == o);
        }
        assert forall|o: OwnerKey| old(admitted)@.contains(o) implies #[trigger] admitted@.contains(o) by {
            let k = choose|k: int| 0 <= k < old(admitted)@.len() && old(admitted)@[k] == o;
            assert(admitted@[k] == o);
        }
        assert forall|i: int| 0 <= i < set@.len() implies admitted@.contains(#[trigger] set@[i]) by {
            if i < old(set)@.len() {
                assert(old(set)@[i] == set@[i]);
                assert(old(admitted)@.contains(old(set)@[i]));
            } else {
                assert(set@[i] == owner);
            }
        }
    }
    Ok(())
}


/// `later` counts only more ownership steps than `earlier`, and no more than `maximum` if any.
pub open spec fn steps_only(earlier: ImpactWork, later: ImpactWork, maximum: u64) -> bool {
    &&& later == ImpactWork { ownership_steps: later.ownership_steps, ..earlier }
    &&& earlier.ownership_steps <= later.ownership_steps
    &&& later.ownership_steps > earlier.ownership_steps ==> later.ownership_steps <= maximum
}

/// A refusal of a malformed ownership structure.
fn impact_error(code: &str, message: &str) -> (r: Diagnostic)
    ensures
        r.class == DiagnosticClass::Corrupt,
        r.code@ == code@,
{
    Diagnostic::new(DiagnosticClass::Corrupt, code, static_message(message))
}

/// Selects `owner` and each ancestor its summary aggregates into, along the base or the
/// candidate ownership.
#[verifier::rlimit(80)]
#[verifier::spinoff_prover]
fn walk_aggregating_path<W: WitnessBaseRead>(
    owner: OwnerKey,
    candidate: bool,
    ownership: &mut CandidateOwnership,
    relations: &mut CandidateRelations<W>,
    selected: &mut Vec<OwnerKey>,
    work: &mut ImpactWork,
    admitted: &mut Vec<OwnerKey>,
    maximum_affected: u64,
    maximum_steps: u64,
) -> (r: Result<(), Diagnostic>)
    requires
        old(relations).wf(),
        ownership_agrees(*old(ownership), *old(relations)),
        within(old(selected)@, old(admitted)@),
        old(admitted)@.len() <= maximum_affected,
    ensures
        old(relations).evolves_to(final(relations)),
        ownership_agrees(*final(ownership), *final(relations)),
        within(final(selected)@, final(admitted)@),
        final(admitted)@.len() <= maximum_affected,
        grows(old(selected)@, final(selected)@),
        grows(old(admitted)@, final(admitted)@),
        old(selected)@.no_duplicates() ==> final(selected)@.no_duplicates(),
        steps_only(*old(work), *final(work), maximum_steps),
        r is Ok ==> forall|x: OwnerKey| #[trigger] on_walk(
            owner,
            x,
            candidate,
            old(relations).derived_delta().ownership@,
            old(relations).source().evidence().ownership,
        ) ==> final(selected)@.contains(x),
        r is Ok ==> forall|path: Seq<OwnerKey>| #[trigger] is_walk(
            path,
            owner,
            candidate,
            old(relations).derived_delta().ownership@,
            old(relations).source().evidence().ownership,
        ) ==> final(work).ownership_steps == old(work).ownership_steps + path.len()
            && final(admitted)@.len() <= old(admitted)@.len() + path.len(),
        forall|path: Seq<OwnerKey>| #[trigger] is_walk(
            path,
            owner,
            candidate,
            old(relations).derived_delta().ownership@,
            old(relations).source().evidence().ownership,
        ) && old(relations).source().witness_reads_are_total()
            && old(work).ownership_steps + path.len() <= maximum_steps
            && old(admitted)@.len() + path.len() <= maximum_affected ==> r is Ok,
{
    let ghost edits = relations.derived_delta().ownership@;
    let ghost base = relations.source().evidence().ownership;
    let ghost total = relations.source().witness_reads_are_total();
    let ghost fits = total && exists|path: Seq<OwnerKey>| #[trigger] is_walk(path, owner, candidate, edits, base)
        && old(work).ownership_steps + path.len() <= maximum_steps
        && old(admitted)@.len() + path.len() <= maximum_affected;
    let ghost path: Seq<OwnerKey> = if fits {
        choose|path: Seq<OwnerKey>| #[trigger] is_walk(path, owner, candidate, edits, base)
            && old(work).ownership_steps + path.len() <= maximum_steps
            && old(admitted)@.len() + path.len() <= maximum_affected
    } else {
        Seq::empty()
    };
    proof {
        if fits {
            lemma_walk_distinct(path, owner, candidate, edits, base);
            assert(path.take(0) =~= Seq::<OwnerKey>::empty());
        }
    }
    let mut current = owner;
    let mut observed: Vec<OwnerKey> = Vec::new();
    loop
        invariant_except_break
            observed@.len() > 0 ==> aggregation_parent(ownership_at(candidate, edits, base, observed@.last())) == Some(current),
            fits ==> observed@.len() < path.len() && observed@ == path.take(observed@.len() as int)
                && current == path[observed@.len() as int],
        invariant
            fits ==> is_walk(path, owner, candidate, edits, base) && path.no_duplicates() && total
                && old(work).ownership_steps + path.len() <= maximum_steps
                && old(admitted)@.len() + path.len() <= maximum_affected,
            relations.source().witness_reads_are_total() == total,
            fits == (total && exists|path: Seq<OwnerKey>| #[trigger] is_walk(path, owner, candidate, edits, base)
                && old(work).ownership_steps + path.len() <= maximum_steps
                && old(admitted)@.len() + path.len() <= maximum_affected),
            work.ownership_steps == old(work).ownership_steps + observed@.len(),
            admitted@.len() <= old(admitted)@.len() + observed@.len(),
            old(relations).evolves_to(relations),
            edits == old(relations).derived_delta().ownership@,
            base == old(relations).source().evidence().ownership,
            ownership_agrees(*ownership, *relations),
            within(selected@, admitted@),
            admitted@.len() <= maximum_affected,
            grows(old(selected)@, selected@),
            grows(old(admitted)@, admitted@),
            old(selected)@.no_duplicates() ==> selected@.no_duplicates(),
            steps_only(*old(work), *work, maximum_steps),
            observed@.len() == 0 ==> current == owner,
            observed@.len() > 0 ==> observed@[0] == owner,
            forall|k: int| 0 <= k < observed@.len() - 1
                ==> aggregation_parent(ownership_at(candidate, edits, base, #[trigger] observed@[k])) == Some(observed@[k + 1]),
            forall|x: OwnerKey| observed@.contains(x) ==> #[trigger] selected@.contains(x),
        ensures
            old(relations).evolves_to(relations),
            ownership_agrees(*ownership, *relations),
            within(selected@, admitted@),
            admitted@.len() <= maximum_affected,
            grows(old(selected)@, selected@),
            grows(old(admitted)@, admitted@),
            old(selected)@.no_duplicates() ==> selected@.no_duplicates(),
            steps_only(*old(work), *work, maximum_steps),
            is_walk(observed@, owner, candidate, edits, base),
            forall|x: OwnerKey| observed@.contains(x) ==> #[trigger] selected@.contains(x),
        decreases maximum_steps - work.ownership_steps,
    {
        let ghost before = observed@;
        proof {
            if fits {
                let n = observed@.len() as int;
                assert forall|k: int| 0 <= k < n implies observed@[k] != current by {
                    assert(observed@[k] == path[k]);
                }
            }
        }
        if !insert_owner(&mut observed, current) {
            proof {
                assert(!fits);
                assert forall|p: Seq<OwnerKey>| #[trigger] is_walk(p, owner, candidate, edits, base) && total
                    && old(work).ownership_steps + p.len() <= maximum_steps
                    && old(admitted)@.len() + p.len() <= maximum_affected implies false by {}
            }
            return Err(impact_error("change_impact_ownership_cycle", "impact ownership path is cyclic"));
        }
        proof {
            if fits {
                assert(observed@ =~= path.take(observed@.len() as int));
            }
        }
        match admit_ownership_step(work, maximum_steps) {
            Ok(()) => {},
            Err(error) => {
                proof {
                    assert(!fits);
                    assert forall|p: Seq<OwnerKey>| #[trigger] is_walk(p, owner, candidate, edits, base) && total
                        && old(work).ownership_steps + p.len() <= maximum_steps
                        && old(admitted)@.len() + p.len() <= maximum_affected implies false by {}
                }
                return Err(error);
            },
        }
        let ghost chosen = selected@;
        match admit_into(selected, admitted, current, maximum_affected) {
            Ok(()) => {},
            Err(error) => {
                proof {
                    assert(!fits);
                    assert forall|p: Seq<OwnerKey>| #[trigger] is_walk(p, owner, candidate, edits, base) && total
                        && old(work).ownership_steps + p.len() <= maximum_steps
                        && old(admitted)@.len() + p.len() <= maximum_affected implies false by {}
                }
                return Err(error);
            },
        }
        proof {
            lemma_chain_extends(before, current, candidate, edits, base);
            assert forall|x: OwnerKey| observed@.contains(x) implies #[trigger] selected@.contains(x) by {
                if x != current {
                    let k = choose|k: int| 0 <= k < observed@.len() && observed@[k] == x;
                    assert(before[k] == x);
                    assert(chosen.contains(x));
                }
            }
        }
        let entry = if candidate {
            ownership.candidate(relations, current)?
        } else {
            ownership.before(relations, current)?
        };
        proof {
            assert(entry == ownership_at(candidate, edits, base, current));
            assert(observed@.last() == current);
        }
        let entry = match entry {
            Some(entry) => entry,
            None => break,
        };
        if !entry.role.aggregates_into_parent() {
            break;
        }
        match entry.parent {
            OwnershipParent::Owner(parent) => {
                proof {
                    if fits {
                        let n = before.len() as int;
                        if n + 1 >= path.len() {
                            assert(path.last() == path[n]);
                        }
                        assert(aggregation_parent(ownership_at(candidate, edits, base, path[n])) == Some(path[n + 1]));
                    }
                }
                current = parent;
            },
            OwnershipParent::Package => break,
        }
    }
    proof {
        lemma_on_walk_is_path(owner, observed@, candidate, edits, base);
        assert forall|other: Seq<OwnerKey>| #[trigger] is_walk(other, owner, candidate, edits, base) implies other == observed@ by {
            lemma_walk_unique(other, observed@, owner, candidate, edits, base);
        }
    }
    Ok(())
}

/// Selects the summary paths of `owner` along both the base and the candidate ownership.
fn add_summary_paths<W: WitnessBaseRead>(
    owner: OwnerKey,
    ownership: &mut CandidateOwnership,
    relations: &mut CandidateRelations<W>,
    selected: &mut Vec<OwnerKey>,
    work: &mut ImpactWork,
    admitted: &mut Vec<OwnerKey>,
    maximum_affected: u64,
    maximum_steps: u64,
) -> (r: Result<(), Diagnostic>)
    requires
        ownership_agrees(*old(ownership), *old(relations)),
        old(relations).wf(),
        within(old(selected)@, old(admitted)@),
        old(admitted)@.len() <= maximum_affected,
    ensures
        ownership_agrees(*final(ownership), *final(relations)),
        old(relations).evolves_to(final(relations)),
        within(final(selected)@, final(admitted)@),
        final(admitted)@.len() <= maximum_affected,
        grows(old(selected)@, final(selected)@),
        grows(old(admitted)@, final(admitted)@),
        old(selected)@.no_duplicates() ==> final(selected)@.no_duplicates(),
        steps_only(*old(work), *final(work), maximum_steps),
        r is Ok ==> forall|x: OwnerKey| #[trigger] reaches(
            owner,
            x,
            old(relations).derived_delta().ownership@,
            old(relations).source().evidence().ownership,
        ) ==> final(selected)@.contains(x),
        r is Ok ==> forall|p: Seq<OwnerKey>, q: Seq<OwnerKey>|
            #[trigger] is_walk(p, owner, false, old(relations).derived_delta().ownership@, old(relations).source().evidence().ownership)
            && #[trigger] is_walk(q, owner, true, old(relations).derived_delta().ownership@, old(relations).source().evidence().ownership)
            ==> final(work).ownership_steps == old(work).ownership_steps + p.len() + q.len()
                && final(admitted)@.len() <= old(admitted)@.len() + p.len() + q.len(),
        forall|p: Seq<OwnerKey>, q: Seq<OwnerKey>|
            #[trigger] is_walk(p, owner, false, old(relations).derived_delta().ownership@, old(relations).source().evidence().ownership)
            && #[trigger] is_walk(q, owner, true, old(relations).derived_delta().ownership@, old(relations).source().evidence().ownership)
            && old(relations).source().witness_reads_are_total()
            && old(work).ownership_steps + p.len() + q.len() <= maximum_steps
            && old(admitted)@.len() + p.len() + q.len() <= maximum_affected ==> r is Ok,
{
    let ghost edits = relations.derived_delta().ownership@;
    let ghost base = relations.source().evidence().ownership;
    let ghost steps = work.ownership_steps;
    let ghost count = admitted@.len();
    match walk_aggregating_path(owner, false, ownership, relations, selected, work, admitted, maximum_affected, maximum_steps) {
        Ok(()) => {},
        Err(error) => {
            proof {
                assert forall|p: Seq<OwnerKey>, q: Seq<OwnerKey>|
                    #[trigger] is_walk(p, owner, false, edits, base) && #[trigger] is_walk(q, owner, true, edits, base)
                    && old(relations).source().witness_reads_are_total()
                    && steps + p.len() + q.len() <= maximum_steps
                    && count + p.len() + q.len() <= maximum_affected implies false by {}
            }
            return Err(error);
        },
    }
    let ghost middle_steps = work.ownership_steps;
    let ghost middle_count = admitted@.len();
    let result = walk_aggregating_path(owner, true, ownership, relations, selected, work, admitted, maximum_affected, maximum_steps);
    proof {
        assert forall|p: Seq<OwnerKey>, q: Seq<OwnerKey>|
            #[trigger] is_walk(p, owner, false, edits, base) && #[trigger] is_walk(q, owner, true, edits, base)
            implies middle_steps == steps + p.len() && middle_count <= count + p.len() by {}
    }
    result
}

/// The owner a compiler-unit walk steps to from an owner with ownership `entry`.
pub open spec fn unit_parent(entry: Option<OwnershipEntry>) -> Option<OwnerKey> {
    match entry {
        Some(found) => match found.parent {
            OwnershipParent::Owner(parent) => Some(parent),
            OwnershipParent::Package => None,
        },
        None => None,
    }
}

/// Whether `owner` is a compiler unit by its key alone.
pub open spec fn keyed_unit(owner: OwnerKey) -> bool {
    owner is Declaration || owner is Target
}

/// Whether `path` is the compiler-unit walk from `start`: up the base or, where `candidate`, the
/// candidate ownership, until an owner keyed as a unit or one without a parent owner.
pub open spec fn is_unit_walk(
    path: Seq<OwnerKey>,
    start: OwnerKey,
    candidate: bool,
    edits: Seq<DerivedValueEdit<OwnerKey, OwnershipEntry>>,
    base: Seq<(OwnerKey, OwnershipEntry)>,
) -> bool {
    &&& path.len() > 0
    &&& path[0] == start
    &&& forall|k: int| 0 <= k < path.len() - 1 ==> !keyed_unit(#[trigger] path[k])
        && unit_parent(ownership_at(candidate, edits, base, path[k])) == Some(path[k + 1])
    &&& keyed_unit(path.last()) || unit_parent(ownership_at(candidate, edits, base, path.last())) is None
}

/// Whether some compiler-unit walk runs from `start`.
#[verifier::opaque]
pub open spec fn unit_walk_exists(
    start: OwnerKey,
    candidate: bool,
    edits: Seq<DerivedValueEdit<OwnerKey, OwnershipEntry>>,
    base: Seq<(OwnerKey, OwnershipEntry)>,
) -> bool {
    exists|path: Seq<OwnerKey>| #[trigger] is_unit_walk(path, start, candidate, edits, base)
}

/// The compiler unit a unit walk ends at: an owner keyed as a unit, or an owner without
/// ownership whose candidate record is a port or a target.
pub open spec fn unit_at_end(
    path: Seq<OwnerKey>,
    candidate: bool,
    edits: Seq<DerivedValueEdit<OwnerKey, OwnershipEntry>>,
    base: Seq<(OwnerKey, OwnershipEntry)>,
    authority: CanonicalAuthority,
    delta: CanonicalDeltaView,
) -> Option<OwnerKey> {
    let last = path.last();
    if keyed_unit(last) {
        Some(last)
    } else if ownership_at(candidate, edits, base, last) is None {
        match candidate_owner(authority, delta, last) {
            Some(record) => if record.kind == OwnerKind::Port || record.kind == OwnerKind::Target {
                Some(last)
            } else {
                None
            },
            None => None,
        }
    } else {
        None
    }
}

/// The units of the base walk, then the unit of the candidate walk unless it is the same.
pub open spec fn unit_list(first: Option<OwnerKey>, second: Option<OwnerKey>) -> Seq<OwnerKey> {
    let front = match first {
        Some(unit) => seq![unit],
        None => Seq::empty(),
    };
    match second {
        Some(unit) => if front.contains(unit) { front } else { front.push(unit) },
        None => front,
    }
}

/// The compiler units that own `start`: the unit of its base walk, then that of its candidate
/// walk unless it is the same.
pub open spec fn units_of(
    start: OwnerKey,
    edits: Seq<DerivedValueEdit<OwnerKey, OwnershipEntry>>,
    base: Seq<(OwnerKey, OwnershipEntry)>,
    authority: CanonicalAuthority,
    delta: CanonicalDeltaView,
) -> Seq<OwnerKey> {
    unit_list(
        unit_at_end(choose|p: Seq<OwnerKey>| is_unit_walk(p, start, false, edits, base), false, edits, base, authority, delta),
        unit_at_end(choose|q: Seq<OwnerKey>| is_unit_walk(q, start, true, edits, base), true, edits, base, authority, delta),
    )
}

/// Two unit walks from one start agree at each position both reach.
proof fn lemma_unit_walk_prefix_agrees(
    p: Seq<OwnerKey>,
    q: Seq<OwnerKey>,
    start: OwnerKey,
    candidate: bool,
    edits: Seq<DerivedValueEdit<OwnerKey, OwnershipEntry>>,
    base: Seq<(OwnerKey, OwnershipEntry)>,
    k: int,
)
    requires
        is_unit_walk(p, start, candidate, edits, base),
        is_unit_walk(q, start, candidate, edits, base),
        0 <= k < p.len(),
        k < q.len(),
    ensures
        p[k] == q[k],
    decreases k,
{
    if k > 0 {
        lemma_unit_walk_prefix_agrees(p, q, start, candidate, edits, base, k - 1);
        assert(unit_parent(ownership_at(candidate, edits, base, p[k - 1])) == Some(p[k]));
        assert(unit_parent(ownership_at(candidate, edits, base, q[k - 1])) == Some(q[k]));
    }
}

/// A unit walk is determined by where it starts.
proof fn lemma_unit_walk_unique(
    p: Seq<OwnerKey>,
    q: Seq<OwnerKey>,
    start: OwnerKey,
    candidate: bool,
    edits: Seq<DerivedValueEdit<OwnerKey, OwnershipEntry>>,
    base: Seq<(OwnerKey, OwnershipEntry)>,
)
    requires
        is_unit_walk(p, start, candidate, edits, base),
        is_unit_walk(q, start, candidate, edits, base),
    ensures
        p == q,
{
    let n = if p.len() <= q.len() { p.len() } else { q.len() };
    assert forall|k: int| 0 <= k < n implies p[k] == q[k] by {
        lemma_unit_walk_prefix_agrees(p, q, start, candidate, edits, base, k);
    }
    if p.len() < q.len() {
        assert(p[p.len() - 1] == q[p.len() - 1]);
        assert(!keyed_unit(q[p.len() - 1]));
        assert(unit_parent(ownership_at(candidate, edits, base, q[p.len() - 1])) == Some(q[p.len() as int]));
    } else if q.len() < p.len() {
        assert(p[q.len() - 1] == q[q.len() - 1]);
        assert(!keyed_unit(p[q.len() - 1]));
        assert(unit_parent(ownership_at(candidate, edits, base, p[q.len() - 1])) == Some(p[q.len() as int]));
    }
    assert(p =~= q);
}

/// Two positions of a unit walk that hold one owner hold one owner any equal distance further on.
proof fn lemma_unit_walk_shift(
    path: Seq<OwnerKey>,
    start: OwnerKey,
    candidate: bool,
    edits: Seq<DerivedValueEdit<OwnerKey, OwnershipEntry>>,
    base: Seq<(OwnerKey, OwnershipEntry)>,
    a: int,
    b: int,
    m: int,
)
    requires
        is_unit_walk(path, start, candidate, edits, base),
        0 <= a < b,
        0 <= m,
        b + m < path.len(),
        path[a] == path[b],
    ensures
        path[a + m] == path[b + m],
    decreases m,
{
    if m > 0 {
        lemma_unit_walk_shift(path, start, candidate, edits, base, a, b, m - 1);
        assert(unit_parent(ownership_at(candidate, edits, base, path[a + m - 1])) == Some(path[a + m]));
        assert(unit_parent(ownership_at(candidate, edits, base, path[b + m - 1])) == Some(path[b + m]));
    }
}

/// Whether `path` is the unit walk from `start`, and `observed`, then `current`, the part walked.
#[verifier::opaque]
spec fn on_the_unit_walk(
    path: Seq<OwnerKey>,
    start: OwnerKey,
    candidate: bool,
    edits: Seq<DerivedValueEdit<OwnerKey, OwnershipEntry>>,
    base: Seq<(OwnerKey, OwnershipEntry)>,
    observed: Seq<OwnerKey>,
    current: OwnerKey,
) -> bool {
    &&& is_unit_walk(path, start, candidate, edits, base)
    &&& observed.len() < path.len()
    &&& observed == path.take(observed.len() as int)
    &&& current == path[observed.len() as int]
}

/// A unit walk starts at its start.
proof fn lemma_unit_walk_start(
    path: Seq<OwnerKey>,
    start: OwnerKey,
    candidate: bool,
    edits: Seq<DerivedValueEdit<OwnerKey, OwnershipEntry>>,
    base: Seq<(OwnerKey, OwnershipEntry)>,
)
    requires
        is_unit_walk(path, start, candidate, edits, base),
    ensures
        on_the_unit_walk(path, start, candidate, edits, base, Seq::empty(), start),
{
    reveal(on_the_unit_walk);
    assert(path.take(0) =~= Seq::<OwnerKey>::empty());
}

/// Walking one more step along a unit walk: the owner stood at is new, the walk goes on while
/// that owner is no unit and has a parent owner, and it ends there otherwise.
proof fn lemma_unit_walk_step(
    path: Seq<OwnerKey>,
    start: OwnerKey,
    candidate: bool,
    edits: Seq<DerivedValueEdit<OwnerKey, OwnershipEntry>>,
    base: Seq<(OwnerKey, OwnershipEntry)>,
    observed: Seq<OwnerKey>,
    current: OwnerKey,
)
    requires
        on_the_unit_walk(path, start, candidate, edits, base, observed, current),
    ensures
        !observed.contains(current),
        observed.len() + 1 <= path.len(),
        !keyed_unit(current) ==> (unit_parent(ownership_at(candidate, edits, base, current)) matches Some(parent)
            ==> on_the_unit_walk(path, start, candidate, edits, base, observed.push(current), parent)),
        keyed_unit(current) || unit_parent(ownership_at(candidate, edits, base, current)) is None
            ==> path == observed.push(current),
{
    reveal(on_the_unit_walk);
    let n = observed.len() as int;
    assert forall|k: int| 0 <= k < n implies observed[k] != current by {
        assert(observed[k] == path[k]);
        if observed[k] == current {
            lemma_unit_walk_shift(path, start, candidate, edits, base, k, n, path.len() - 1 - n);
            assert(!keyed_unit(path[k + path.len() - 1 - n]));
            assert(unit_parent(ownership_at(candidate, edits, base, path[k + path.len() - 1 - n])) == Some(path[k + path.len() - n]));
        }
    }
    assert(observed.push(current) =~= path.take(n + 1));
    if n + 1 < path.len() {
        assert(!keyed_unit(path[n]));
        assert(unit_parent(ownership_at(candidate, edits, base, path[n])) == Some(path[n + 1]));
    } else {
        assert(path.take(n + 1) =~= path);
    }
}

/// A compiler-unit chain stepped to the parent of its last owner stays a chain.
proof fn lemma_unit_chain_extends(
    before: Seq<OwnerKey>,
    current: OwnerKey,
    candidate: bool,
    edits: Seq<DerivedValueEdit<OwnerKey, OwnershipEntry>>,
    base: Seq<(OwnerKey, OwnershipEntry)>,
)
    requires
        forall|k: int| 0 <= k < before.len() - 1 ==> !keyed_unit(#[trigger] before[k])
            && unit_parent(ownership_at(candidate, edits, base, before[k])) == Some(before[k + 1]),
        before.len() > 0 ==> !keyed_unit(before.last())
            && unit_parent(ownership_at(candidate, edits, base, before.last())) == Some(current),
    ensures
        forall|k: int| 0 <= k < before.push(current).len() - 1 ==> !keyed_unit(#[trigger] before.push(current)[k])
            && unit_parent(ownership_at(candidate, edits, base, before.push(current)[k])) == Some(before.push(current)[k + 1]),
{
    let after = before.push(current);
    assert forall|k: int| 0 <= k < after.len() - 1 implies !keyed_unit(#[trigger] after[k])
        && unit_parent(ownership_at(candidate, edits, base, after[k])) == Some(after[k + 1]) by {
        assert(after[k] == before[k]);
        if k < before.len() - 1 {
            assert(after[k + 1] == before[k + 1]);
        } else {
            assert(after[k + 1] == current);
        }
    }
}

/// Walks from `owner` up the base or, where `candidate`, the candidate ownership to the compiler
/// unit that owns it, if any.
#[verifier::rlimit(80)]
#[verifier::spinoff_prover]
fn walk_to_unit<B: CanonicalBaseRead, W: WitnessBaseRead>(
    owner: OwnerKey,
    candidate: bool,
    overlay: &mut KernelOverlay<B>,
    ownership: &mut CandidateOwnership,
    relations: &mut CandidateRelations<W>,
    work: &mut ImpactWork,
    maximum_steps: u64,
) -> (r: Result<Option<OwnerKey>, Diagnostic>)
    requires
        old(overlay).wf(),
        old(relations).wf(),
        ownership_agrees(*old(ownership), *old(relations)),
    ensures
        old(overlay).evolves_to(final(overlay)),
        old(relations).evolves_to(final(relations)),
        ownership_agrees(*final(ownership), *final(relations)),
        steps_only(*old(work), *final(work), maximum_steps),
        r is Ok ==> unit_walk_exists(owner, candidate, old(relations).derived_delta().ownership@, old(relations).source().evidence().ownership),
        r matches Ok(unit) ==> forall|path: Seq<OwnerKey>| #[trigger] is_unit_walk(path, owner, candidate, old(relations).derived_delta().ownership@, old(relations).source().evidence().ownership)
            ==> unit == unit_at_end(path, candidate, old(relations).derived_delta().ownership@, old(relations).source().evidence().ownership, old(overlay).base_authority(), old(overlay).delta_view())
                && final(work).ownership_steps == old(work).ownership_steps + path.len(),
        forall|path: Seq<OwnerKey>| #[trigger] is_unit_walk(path, owner, candidate, old(relations).derived_delta().ownership@, old(relations).source().evidence().ownership)
            && old(overlay).source().reads_are_total() && old(relations).source().witness_reads_are_total()
            && old(work).ownership_steps + path.len() <= maximum_steps ==> r is Ok,
{
    let ghost edits = relations.derived_delta().ownership@;
    let ghost base = relations.source().evidence().ownership;
    let ghost authority = overlay.base_authority();
    let ghost delta = overlay.delta_view();
    let ghost total = overlay.source().reads_are_total() && relations.source().witness_reads_are_total();
    let ghost exists_walk = unit_walk_exists(owner, candidate, edits, base);
    let ghost path: Seq<OwnerKey> = if exists_walk {
        choose|p: Seq<OwnerKey>| #[trigger] is_unit_walk(p, owner, candidate, edits, base)
    } else {
        Seq::empty()
    };
    let ghost fits = total && exists_walk && old(work).ownership_steps + path.len() <= maximum_steps;
    proof {
        if exists_walk {
            reveal(unit_walk_exists);
            lemma_unit_walk_start(path, owner, candidate, edits, base);
        }
    }
    let mut current = owner;
    let mut observed: Vec<OwnerKey> = Vec::new();
    let mut unit: Option<OwnerKey> = None;
    loop
        invariant_except_break
            observed@.len() > 0 ==> !keyed_unit(observed@.last())
                && unit_parent(ownership_at(candidate, edits, base, observed@.last())) == Some(current),
            fits ==> on_the_unit_walk(path, owner, candidate, edits, base, observed@, current),
            unit is None,
        invariant
            old(overlay).evolves_to(overlay),
            old(relations).evolves_to(relations),
            ownership_agrees(*ownership, *relations),
            steps_only(*old(work), *work, maximum_steps),
            edits == old(relations).derived_delta().ownership@,
            base == old(relations).source().evidence().ownership,
            authority == old(overlay).base_authority(),
            delta == old(overlay).delta_view(),
            total == (old(overlay).source().reads_are_total() && old(relations).source().witness_reads_are_total()),
            exists_walk == unit_walk_exists(owner, candidate, edits, base),
            exists_walk ==> is_unit_walk(path, owner, candidate, edits, base),
            fits == (total && exists_walk && old(work).ownership_steps + path.len() <= maximum_steps),
            work.ownership_steps == old(work).ownership_steps + observed@.len(),
            observed@.len() == 0 ==> current == owner,
            observed@.len() > 0 ==> observed@[0] == owner,
            forall|k: int| 0 <= k < observed@.len() - 1 ==> !keyed_unit(#[trigger] observed@[k])
                && unit_parent(ownership_at(candidate, edits, base, observed@[k])) == Some(observed@[k + 1]),
        ensures
            old(overlay).evolves_to(overlay),
            old(relations).evolves_to(relations),
            ownership_agrees(*ownership, *relations),
            steps_only(*old(work), *work, maximum_steps),
            is_unit_walk(observed@, owner, candidate, edits, base),
            unit == unit_at_end(observed@, candidate, edits, base, authority, delta),
            work.ownership_steps == old(work).ownership_steps + observed@.len(),
        decreases maximum_steps - work.ownership_steps,
    {
        proof {
            if fits {
                lemma_unit_walk_step(path, owner, candidate, edits, base, observed@, current);
            }
        }
        let ghost before = observed@;
        if !insert_owner(&mut observed, current) {
            proof {
                    assert(!fits);
                    assert forall|p: Seq<OwnerKey>| #[trigger] is_unit_walk(p, owner, candidate, edits, base) && total
                        && old(work).ownership_steps + p.len() <= maximum_steps implies false by {
                        reveal(unit_walk_exists);
                        lemma_unit_walk_unique(p, path, owner, candidate, edits, base);
                    }
                }
            return Err(impact_error("change_impact_unit_cycle", "compiler-unit ownership path is cyclic"));
        }
        match admit_ownership_step(work, maximum_steps) {
            Ok(()) => {},
            Err(error) => {
                proof {
                    assert(!fits);
                    assert forall|p: Seq<OwnerKey>| #[trigger] is_unit_walk(p, owner, candidate, edits, base) && total
                        && old(work).ownership_steps + p.len() <= maximum_steps implies false by {
                        reveal(unit_walk_exists);
                        lemma_unit_walk_unique(p, path, owner, candidate, edits, base);
                    }
                }
                return Err(error);
            },
        }
        proof {
            lemma_unit_chain_extends(before, current, candidate, edits, base);
            assert(observed@.last() == current);
        }
        match current {
            OwnerKey::Declaration(_) | OwnerKey::Target(_) => {
                unit = Some(current);
                break;
            },
            _ => {},
        }
        let entry = if candidate {
            ownership.candidate(relations, current)?
        } else {
            ownership.before(relations, current)?
        };
        proof {
            assert(entry == ownership_at(candidate, edits, base, current));
        }
        match entry {
            None => {
                if let Some(record) = overlay.owner(current)? {
                    if record.kind == OwnerKind::Port || record.kind == OwnerKind::Target {
                        unit = Some(current);
                    }
                }
                break;
            },
            Some(entry) => match entry.parent {
                OwnershipParent::Owner(parent) => {
                    current = parent;
                },
                OwnershipParent::Package => break,
            },
        }
    }
    proof {
        reveal(unit_walk_exists);
        assert(is_unit_walk(observed@, owner, candidate, edits, base));
        assert forall|other: Seq<OwnerKey>| #[trigger] is_unit_walk(other, owner, candidate, edits, base)
            implies other == observed@ by {
            lemma_unit_walk_unique(other, observed@, owner, candidate, edits, base);
        }
    }
    Ok(unit)
}

/// The compiler units that own `owner`, along the base and then the candidate ownership.
fn owning_units<B: CanonicalBaseRead, W: WitnessBaseRead>(
    owner: OwnerKey,
    overlay: &mut KernelOverlay<B>,
    ownership: &mut CandidateOwnership,
    relations: &mut CandidateRelations<W>,
    work: &mut ImpactWork,
    maximum_steps: u64,
) -> (r: Result<Vec<OwnerKey>, Diagnostic>)
    requires
        old(overlay).wf(),
        old(relations).wf(),
        ownership_agrees(*old(ownership), *old(relations)),
    ensures
        old(overlay).evolves_to(final(overlay)),
        old(relations).evolves_to(final(relations)),
        ownership_agrees(*final(ownership), *final(relations)),
        steps_only(*old(work), *final(work), maximum_steps),
        r is Ok ==> unit_walk_exists(owner, false, old(relations).derived_delta().ownership@, old(relations).source().evidence().ownership) && unit_walk_exists(owner, true, old(relations).derived_delta().ownership@, old(relations).source().evidence().ownership),
        r matches Ok(units) ==> units@ == units_of(
            owner,
            old(relations).derived_delta().ownership@,
            old(relations).source().evidence().ownership,
            old(overlay).base_authority(),
            old(overlay).delta_view(),
        ),
        r matches Ok(units) ==> forall|p: Seq<OwnerKey>, q: Seq<OwnerKey>|
            #[trigger] is_unit_walk(p, owner, false, old(relations).derived_delta().ownership@, old(relations).source().evidence().ownership) && #[trigger] is_unit_walk(q, owner, true, old(relations).derived_delta().ownership@, old(relations).source().evidence().ownership)
            ==> units@ == unit_list(
                    unit_at_end(p, false, old(relations).derived_delta().ownership@, old(relations).source().evidence().ownership, old(overlay).base_authority(), old(overlay).delta_view()),
                    unit_at_end(q, true, old(relations).derived_delta().ownership@, old(relations).source().evidence().ownership, old(overlay).base_authority(), old(overlay).delta_view()),
                )
                && final(work).ownership_steps == old(work).ownership_steps + p.len() + q.len(),
        forall|p: Seq<OwnerKey>, q: Seq<OwnerKey>|
            #[trigger] is_unit_walk(p, owner, false, old(relations).derived_delta().ownership@, old(relations).source().evidence().ownership) && #[trigger] is_unit_walk(q, owner, true, old(relations).derived_delta().ownership@, old(relations).source().evidence().ownership)
            && old(overlay).source().reads_are_total() && old(relations).source().witness_reads_are_total()
            && old(work).ownership_steps + p.len() + q.len() <= maximum_steps ==> r is Ok,
{
    let ghost edits = relations.derived_delta().ownership@;
    let ghost base = relations.source().evidence().ownership;
    let ghost steps = work.ownership_steps;
    let first = match walk_to_unit(owner, false, overlay, ownership, relations, work, maximum_steps) {
        Ok(unit) => unit,
        Err(error) => {
            proof {
                assert forall|p: Seq<OwnerKey>, q: Seq<OwnerKey>|
                    #[trigger] is_unit_walk(p, owner, false, edits, base) && #[trigger] is_unit_walk(q, owner, true, edits, base)
                    && old(overlay).source().reads_are_total() && old(relations).source().witness_reads_are_total()
                    && steps + p.len() + q.len() <= maximum_steps implies false by {}
            }
            return Err(error);
        },
    };
    let ghost middle = work.ownership_steps;
    let second = match walk_to_unit(owner, true, overlay, ownership, relations, work, maximum_steps) {
        Ok(unit) => unit,
        Err(error) => {
            proof {
                assert forall|p: Seq<OwnerKey>, q: Seq<OwnerKey>|
                    #[trigger] is_unit_walk(p, owner, false, edits, base) && #[trigger] is_unit_walk(q, owner, true, edits, base)
                    && old(overlay).source().reads_are_total() && old(relations).source().witness_reads_are_total()
                    && steps + p.len() + q.len() <= maximum_steps implies false by {
                    assert(middle == steps + p.len());
                }
            }
            return Err(error);
        },
    };
    let mut units: Vec<OwnerKey> = Vec::new();
    if let Some(unit) = first {
        insert_owner(&mut units, unit);
    }
    let ghost front = units@;
    if let Some(unit) = second {
        insert_owner(&mut units, unit);
    }
    proof {
        assert(front =~= (match first { Some(unit) => seq![unit], None => Seq::<OwnerKey>::empty() }));
        assert(units@ =~= unit_list(first, second));
        reveal(unit_walk_exists);
        let p = choose|p: Seq<OwnerKey>| is_unit_walk(p, owner, false, edits, base);
        let q = choose|q: Seq<OwnerKey>| is_unit_walk(q, owner, true, edits, base);
        assert(is_unit_walk(p, owner, false, edits, base));
        assert(is_unit_walk(q, owner, true, edits, base));
    }
    Ok(units)
}

/// Admits every compiler unit owning `owner` into `units`.
fn add_owning_units<B: CanonicalBaseRead, W: WitnessBaseRead>(
    owner: OwnerKey,
    overlay: &mut KernelOverlay<B>,
    ownership: &mut CandidateOwnership,
    relations: &mut CandidateRelations<W>,
    units: &mut Vec<OwnerKey>,
    work: &mut ImpactWork,
    admitted: &mut Vec<OwnerKey>,
    maximum_affected: u64,
    maximum_steps: u64,
) -> (r: Result<(), Diagnostic>)
    requires
        old(overlay).wf(),
        old(relations).wf(),
        ownership_agrees(*old(ownership), *old(relations)),
        within(old(units)@, old(admitted)@),
        old(admitted)@.len() <= maximum_affected,
    ensures
        old(overlay).evolves_to(final(overlay)),
        old(relations).evolves_to(final(relations)),
        ownership_agrees(*final(ownership), *final(relations)),
        within(final(units)@, final(admitted)@),
        final(admitted)@.len() <= maximum_affected,
        grows(old(units)@, final(units)@),
        grows(old(admitted)@, final(admitted)@),
        old(units)@.no_duplicates() ==> final(units)@.no_duplicates(),
        steps_only(*old(work), *final(work), maximum_steps),
        r is Ok ==> unit_walk_exists(owner, false, old(relations).derived_delta().ownership@, old(relations).source().evidence().ownership) && unit_walk_exists(owner, true, old(relations).derived_delta().ownership@, old(relations).source().evidence().ownership),
        r is Ok ==> forall|p: Seq<OwnerKey>, q: Seq<OwnerKey>|
            #[trigger] is_unit_walk(p, owner, false, old(relations).derived_delta().ownership@, old(relations).source().evidence().ownership) && #[trigger] is_unit_walk(q, owner, true, old(relations).derived_delta().ownership@, old(relations).source().evidence().ownership)
            ==> forall|x: OwnerKey| #[trigger] final(units)@.contains(x) <==> old(units)@.contains(x)
                || unit_list(
                    unit_at_end(p, false, old(relations).derived_delta().ownership@, old(relations).source().evidence().ownership, old(overlay).base_authority(), old(overlay).delta_view()),
                    unit_at_end(q, true, old(relations).derived_delta().ownership@, old(relations).source().evidence().ownership, old(overlay).base_authority(), old(overlay).delta_view()),
                ).contains(x),
        forall|p: Seq<OwnerKey>, q: Seq<OwnerKey>|
            #[trigger] is_unit_walk(p, owner, false, old(relations).derived_delta().ownership@, old(relations).source().evidence().ownership) && #[trigger] is_unit_walk(q, owner, true, old(relations).derived_delta().ownership@, old(relations).source().evidence().ownership)
            && old(overlay).source().reads_are_total() && old(relations).source().witness_reads_are_total()
            && old(work).ownership_steps + p.len() + q.len() <= maximum_steps
            && old(admitted)@.len() + 2 <= maximum_affected ==> r is Ok,
{
    let ghost edits = relations.derived_delta().ownership@;
    let ghost base = relations.source().evidence().ownership;
    let ghost authority = overlay.base_authority();
    let ghost delta = overlay.delta_view();
    let ghost total = overlay.source().reads_are_total() && relations.source().witness_reads_are_total();
    let found = owning_units(owner, overlay, ownership, relations, work, maximum_steps)?;
    let ghost p: Seq<OwnerKey> = choose|p: Seq<OwnerKey>| #[trigger] is_unit_walk(p, owner, false, edits, base);
    let ghost q: Seq<OwnerKey> = choose|q: Seq<OwnerKey>| #[trigger] is_unit_walk(q, owner, true, edits, base);
    proof {
        reveal(unit_walk_exists);
        assert(found@ == unit_list(
            unit_at_end(p, false, edits, base, authority, delta),
            unit_at_end(q, true, edits, base, authority, delta),
        ));
        assert(found@.len() <= 2);
    }
    let mut i: usize = 0;
    while i < found.len()
        invariant
            i <= found@.len(),
            found@.len() <= 2,
            found@ == unit_list(
                unit_at_end(p, false, edits, base, authority, delta),
                unit_at_end(q, true, edits, base, authority, delta),
            ),
            is_unit_walk(p, owner, false, edits, base),
            is_unit_walk(q, owner, true, edits, base),
            edits == old(relations).derived_delta().ownership@,
            base == old(relations).source().evidence().ownership,
            total == (old(overlay).source().reads_are_total() && old(relations).source().witness_reads_are_total()),
            admitted@.len() <= old(admitted)@.len() + i,
            forall|x: OwnerKey| #[trigger] units@.contains(x) <==> old(units)@.contains(x) || found@.take(i as int).contains(x),
            old(overlay).evolves_to(overlay),
            old(relations).evolves_to(relations),
            ownership_agrees(*ownership, *relations),
            steps_only(*old(work), *work, maximum_steps),
            within(units@, admitted@),
            admitted@.len() <= maximum_affected,
            grows(old(units)@, units@),
            grows(old(admitted)@, admitted@),
            old(units)@.no_duplicates() ==> units@.no_duplicates(),
        decreases found@.len() - i,
    {
        let ghost units_before = units@;
        match admit_into(units, admitted, found[i], maximum_affected) {
            Ok(()) => {},
            Err(error) => {
                proof {
                    assert forall|p2: Seq<OwnerKey>, q2: Seq<OwnerKey>|
                        #[trigger] is_unit_walk(p2, owner, false, edits, base) && #[trigger] is_unit_walk(q2, owner, true, edits, base)
                        && total && old(work).ownership_steps + p2.len() + q2.len() <= maximum_steps
                        && old(admitted)@.len() + 2 <= maximum_affected implies false by {}
                }
                return Err(error);
            },
        }
        proof {
            assert(found@.take(i + 1) =~= found@.take(i as int).push(found@[i as int]));
            assert forall|x: OwnerKey| #[trigger] units@.contains(x) <==> old(units)@.contains(x) || found@.take(i + 1).contains(x) by {
                let f = found@[i as int];
                let shorter = found@.take(i as int);
                let longer = found@.take(i + 1);
                assert(longer[i as int] == f);
                if units@.contains(x) {
                    if x != f {
                        if !units_before.contains(f) {
                            let k = choose|k: int| 0 <= k < units@.len() && units@[k] == x;
                            assert(units_before[k] == x);
                        }
                        assert(units_before.contains(x));
                        if shorter.contains(x) {
                            let k = choose|k: int| 0 <= k < shorter.len() && #[trigger] shorter[k] == x;
                            assert(longer[k] == x);
                        }
                    }
                }
                if old(units)@.contains(x) {
                    assert(units_before.contains(x));
                    assert(grows(units_before, units@));
                }
                if longer.contains(x) && x != f {
                    let k = choose|k: int| 0 <= k < longer.len() && #[trigger] longer[k] == x;
                    assert(shorter[k] == x);
                    assert(units_before.contains(x));
                    assert(grows(units_before, units@));
                }
            }
        }
        i = i + 1;
    }
    proof {
        assert(found@.take(found@.len() as int) =~= found@);
        assert forall|p2: Seq<OwnerKey>, q2: Seq<OwnerKey>|
            #[trigger] is_unit_walk(p2, owner, false, edits, base) && #[trigger] is_unit_walk(q2, owner, true, edits, base)
            implies p2 == p && q2 == q by {
            lemma_unit_walk_unique(p2, p, owner, false, edits, base);
            lemma_unit_walk_unique(q2, q, owner, true, edits, base);
        }
    }
    Ok(())
}

/// The kind of the summary an edit touches: after the edit where there is one, else before.
pub open spec fn edit_kind(edit: OwnerSummaryEdit) -> Option<OwnerKind> {
    match edit.after {
        Some(summary) => Some(summary.kind),
        None => match edit.before {
            Some(summary) => Some(summary.kind),
            None => None,
        },
    }
}

/// Whether a summary edit is a direct semantic change: an executable dimension changed on an
/// owner with executable meaning.
pub open spec fn direct_change(edit: OwnerSummaryEdit) -> bool {
    &&& dimension_change(edit).spec_executable()
    &&& edit_kind(edit) matches Some(kind) && spec_has_executable_meaning(kind)
}

/// The reason recorded for a direct semantic change of `owner`.
pub open spec fn direct_reason(owner: OwnerKey) -> ImpactReason {
    ImpactReason { kind: ImpactReasonKind::DirectSemanticChange, source: owner, target: owner, relation: None }
}

/// `later` keeps every reason of `earlier`.
pub open spec fn reasons_kept(earlier: Seq<ImpactReason>, later: Seq<ImpactReason>) -> bool {
    forall|x: ImpactReason| earlier.contains(x) ==> #[trigger] later.contains(x)
}

/// The first `count` edits that are direct changes are checked semantically, each with its reason.
pub open spec fn records_direct(
    edits: Seq<OwnerSummaryEdit>,
    count: int,
    semantic: Seq<OwnerKey>,
    reasons: Seq<ImpactReason>,
) -> bool {
    forall|k: int| 0 <= k < count && direct_change(#[trigger] edits[k])
        ==> semantic.contains(edits[k].owner) && reasons.contains(direct_reason(edits[k].owner))
}

/// Pushing a reason keeps every reason and adds it.
proof fn lemma_reason_push(reasons: Seq<ImpactReason>, reason: ImpactReason)
    ensures
        reasons_kept(reasons, reasons.push(reason)),
        reasons.push(reason).contains(reason),
{
    assert(reasons.push(reason)[reasons.len() as int] == reason);
    assert forall|x: ImpactReason| reasons.contains(x) implies #[trigger] reasons.push(reason).contains(x) by {
        let k = choose|k: int| 0 <= k < reasons.len() && reasons[k] == x;
        assert(reasons.push(reason)[k] == x);
    }
}

/// Recorded direct changes stay recorded as the checked owners and the reasons grow.
proof fn lemma_records_direct_grow(
    edits: Seq<OwnerSummaryEdit>,
    count: int,
    semantic: Seq<OwnerKey>,
    reasons: Seq<ImpactReason>,
    later_semantic: Seq<OwnerKey>,
    later_reasons: Seq<ImpactReason>,
)
    requires
        records_direct(edits, count, semantic, reasons),
        grows(semantic, later_semantic),
        reasons_kept(reasons, later_reasons),
    ensures
        records_direct(edits, count, later_semantic, later_reasons),
{
    assert forall|k: int| 0 <= k < count && direct_change(#[trigger] edits[k]) implies
        later_semantic.contains(edits[k].owner) && later_reasons.contains(direct_reason(edits[k].owner)) by {
        assert(semantic.contains(edits[k].owner));
        assert(reasons.contains(direct_reason(edits[k].owner)));
    }
}

/// What every plan of `plan_impact` satisfies, given its inputs.
pub open spec fn plan_meets(
    plan: ImpactPlan,
    canonical: CanonicalDeltaView,
    initial: SummaryDelta,
    admission: ImpactAdmission,
) -> bool {
    &&& plan.structurally_checked@.len() == canonical.owners.len()
    &&& forall|i: int| 0 <= i < canonical.owners.len()
        ==> #[trigger] plan.structurally_checked@[i] == canonical.owners[i].0
    &&& grows(initial.selected@, plan.summary_owners@)
    &&& plan.semantically_checked@.no_duplicates()
    &&& plan.summary_owners@.no_duplicates()
    &&& plan.compiler_units@.no_duplicates()
    &&& plan.tests@.no_duplicates()
    &&& strictly_ordered(plan.reasons@)
    &&& records_direct(initial.edits@, initial.edits@.len() as int, plan.semantically_checked@, plan.reasons@)
    &&& plan.work.summary_edits_examined == initial.edits@.len()
    &&& plan.work.summary_edits_examined <= admission.maximum_summary_edits
    &&& plan.work.ownership_steps <= admission.maximum_ownership_steps
    &&& plan.work.behavior_owners_visited <= admission.maximum_behavior_owners
    &&& sat_add(initial.relation_edges_read, plan.work.reverse_edges_visited) <= admission.maximum_relation_edges
    &&& plan.work.summary_owners_examined == initial.selected@.len() + plan.summary_owners@.len()
    &&& plan.work.summary_owners_examined <= admission.maximum_summary_owners
    &&& exists|frontier: Seq<OwnerKey>| #[trigger] affected_frontier(plan, frontier, admission.maximum_affected_owners)
}

/// `frontier` holds at most `maximum` owners, among them every owner `plan` checks, summarizes,
/// compiles or tests.
pub open spec fn affected_frontier(plan: ImpactPlan, frontier: Seq<OwnerKey>, maximum: u64) -> bool {
    &&& frontier.len() <= maximum
    &&& within(plan.structurally_checked@, frontier)
    &&& within(plan.semantically_checked@, frontier)
    &&& within(plan.summary_owners@, frontier)
    &&& within(plan.compiler_units@, frontier)
    &&& within(plan.tests@, frontier)
}

/// A request that changes no owner, binds no dependency and edits no summary.
pub open spec fn quiet_request(canonical: CanonicalDeltaView, initial: SummaryDelta) -> bool {
    &&& canonical.owners.len() == 0
    &&& canonical.dependencies.len() == 0
    &&& initial.edits@.len() == 0
}

/// Whether a request plans no dependent: it carries no summary edit and no edit of a
/// dependency that was bound before. Its changed owners are only checked structurally.
pub open spec fn calm_request(canonical: CanonicalDeltaView, initial: SummaryDelta) -> bool {
    &&& initial.edits@.len() == 0
    &&& forall|j: int| 0 <= j < canonical.dependencies.len() ==> (#[trigger] canonical.dependencies[j]).1.before is None
}

/// What planning a calm request gives, where it fits its budget: its changed owners checked
/// structurally, its selected summaries derived again, and nothing else.
pub open spec fn calm_plan(plan: ImpactPlan, canonical: CanonicalDeltaView, initial: SummaryDelta) -> bool {
    &&& plan.structurally_checked@ == canonical.owners.map_values(|entry: (OwnerKey, OwnerEdit)| entry.0)
    &&& plan.semantically_checked@.len() == 0
    &&& plan.summary_owners@ == initial.selected@
    &&& plan.compiler_units@.len() == 0
    &&& plan.tests@.len() == 0
    &&& plan.reasons@.len() == 0
    &&& plan.work == ImpactWork {
        summary_owners_examined: (2 * initial.selected@.len()) as u64,
        summary_edits_examined: 0,
        reverse_edges_visited: 0,
        ownership_steps: 0,
        behavior_owners_visited: 0,
        witness_reads: WitnessReadWork::zero(),
    }
}

/// What planning a quiet request gives, where it fits its budget.
pub open spec fn quiet_plan(plan: ImpactPlan, initial: SummaryDelta) -> bool {
    &&& plan.structurally_checked@.len() == 0
    &&& plan.semantically_checked@.len() == 0
    &&& plan.summary_owners@ == initial.selected@
    &&& plan.compiler_units@.len() == 0
    &&& plan.tests@.len() == 0
    &&& plan.reasons@.len() == 0
    &&& plan.work == ImpactWork {
        summary_owners_examined: (2 * initial.selected@.len()) as u64,
        summary_edits_examined: 0,
        reverse_edges_visited: 0,
        ownership_steps: 0,
        behavior_owners_visited: 0,
        witness_reads: WitnessReadWork::zero(),
    }
}

/// Pushing an owner keeps every owner and adds it.
proof fn lemma_owner_push(owners: Seq<OwnerKey>, owner: OwnerKey)
    ensures
        grows(owners, owners.push(owner)),
        owners.push(owner).contains(owner),
{
    assert(owners.push(owner)[owners.len() as int] == owner);
    assert forall|x: OwnerKey| owners.contains(x) implies #[trigger] owners.push(owner).contains(x) by {
        let k = choose|k: int| 0 <= k < owners.len() && owners[k] == x;
        assert(owners.push(owner)[k] == x);
    }
}

/// Admits `owner` into the affected frontier, keeping every owner admitted before.
fn admit_more(admitted: &mut Vec<OwnerKey>, owner: OwnerKey, maximum: u64) -> (r: Result<(), Diagnostic>)
    requires
        old(admitted)@.len() <= maximum,
    ensures
        final(admitted)@.len() <= maximum,
        final(admitted)@.len() <= old(admitted)@.len() + 1,
        grows(old(admitted)@, final(admitted)@),
        r is Ok ==> final(admitted)@.contains(owner),
        old(admitted)@.len() < maximum ==> r is Ok,
{
    let ghost before = admitted@;
    let r = admit_affected(admitted, owner, maximum);
    proof {
        lemma_owner_push(before, owner);
    }
    r
}

/// Whether every owner planned as a validation dependent, or as bound through a dependency, has
/// every owner on its base and candidate summary paths among `summary_owners`.
pub open spec fn paths_selected(
    reasons: Seq<ImpactReason>,
    summary_owners: Seq<OwnerKey>,
    edits: Seq<DerivedValueEdit<OwnerKey, OwnershipEntry>>,
    base: Seq<(OwnerKey, OwnershipEntry)>,
) -> bool {
    forall|i: int, x: OwnerKey|
        0 <= i < reasons.len() && dependent_reason(#[trigger] reasons[i]) && #[trigger] reaches(reasons[i].source, x, edits, base)
            ==> summary_owners.contains(x)
}

/// Whether a reason plans its source as a dependent whose summary path is rebuilt.
pub open spec fn dependent_reason(reason: ImpactReason) -> bool {
    reason.kind == ImpactReasonKind::ValidationDependency || reason.kind == ImpactReasonKind::DependencyBinding
}

/// Selected summary paths stay selected as the summary owners grow and the reasons are kept.
proof fn lemma_paths_selected_kept(
    reasons: Seq<ImpactReason>,
    summary_owners: Seq<OwnerKey>,
    later_reasons: Seq<ImpactReason>,
    later_owners: Seq<OwnerKey>,
    edits: Seq<DerivedValueEdit<OwnerKey, OwnershipEntry>>,
    base: Seq<(OwnerKey, OwnershipEntry)>,
)
    requires
        paths_selected(reasons, summary_owners, edits, base),
        grows(summary_owners, later_owners),
        forall|r: ImpactReason| later_reasons.contains(r) ==> #[trigger] reasons.contains(r),
    ensures
        paths_selected(later_reasons, later_owners, edits, base),
{
    assert forall|i: int, x: OwnerKey|
        0 <= i < later_reasons.len() && dependent_reason(#[trigger] later_reasons[i]) && #[trigger] reaches(later_reasons[i].source, x, edits, base)
        implies later_owners.contains(x) by {
        assert(later_reasons.contains(later_reasons[i]));
        assert(reasons.contains(later_reasons[i]));
        let j = choose|j: int| 0 <= j < reasons.len() && reasons[j] == later_reasons[i];
        assert(dependent_reason(reasons[j]) && reaches(reasons[j].source, x, edits, base));
        assert(summary_owners.contains(x));
    }
}

/// Recording a reason keeps the summary paths selected when a dependent's own path is selected.
proof fn lemma_paths_selected_push(
    reasons: Seq<ImpactReason>,
    reason: ImpactReason,
    summary_owners: Seq<OwnerKey>,
    edits: Seq<DerivedValueEdit<OwnerKey, OwnershipEntry>>,
    base: Seq<(OwnerKey, OwnershipEntry)>,
)
    requires
        paths_selected(reasons, summary_owners, edits, base),
        dependent_reason(reason) ==> forall|x: OwnerKey| #[trigger] reaches(reason.source, x, edits, base) ==> summary_owners.contains(x),
    ensures
        paths_selected(reasons.push(reason), summary_owners, edits, base),
{
    let pushed = reasons.push(reason);
    assert forall|i: int, x: OwnerKey|
        0 <= i < pushed.len() && dependent_reason(#[trigger] pushed[i]) && #[trigger] reaches(pushed[i].source, x, edits, base)
        implies summary_owners.contains(x) by {
        if i < reasons.len() {
            assert(pushed[i] == reasons[i]);
        } else {
            assert(pushed[i] == reason);
        }
    }
}

/// The reason an edge into `target` plans its local source as a validation dependent.
pub open spec fn validation_reason(edge: RelationEdge, package: PackageId, target: OwnerKey) -> ImpactReason {
    ImpactReason {
        kind: ImpactReasonKind::ValidationDependency,
        source: spec_local_owner(edge.source, package)->0,
        target,
        relation: Some(edge.kind),
    }
}

/// Whether behavior propagates along relations of propagation class `class`.
pub open spec fn behavior_follows(class: PropagationClass) -> bool {
    !(class == PropagationClass::Ownership || class == PropagationClass::Presentation)
}

/// The compiler units a behavior edge reaches: those that own its local source, where behavior
/// propagates along it.
pub open spec fn behavior_units(
    edge: RelationEdge,
    package: PackageId,
    edits: Seq<DerivedValueEdit<OwnerKey, OwnershipEntry>>,
    base: Seq<(OwnerKey, OwnershipEntry)>,
    authority: CanonicalAuthority,
    delta: CanonicalDeltaView,
) -> Seq<OwnerKey> {
    if behavior_follows(edge.kind.spec_propagation()) {
        match spec_local_owner(edge.source, package) {
            Some(source) => units_of(source, edits, base, authority, delta),
            None => Seq::empty(),
        }
    } else {
        Seq::empty()
    }
}

/// Whether a unit that a behavior edge into `target` reaches is planned: a test as a test to run,
/// with its reason; any other unit as queued for a visit.
pub open spec fn behavior_planned(
    tests: Seq<OwnerKey>,
    reasons: Seq<ImpactReason>,
    queued: Seq<OwnerKey>,
    kind: Option<OwnerKind>,
    unit: OwnerKey,
    target: OwnerKey,
    relation: RelationKind,
) -> bool {
    if kind == Some(OwnerKind::Test) {
        &&& tests.contains(unit)
        &&& reasons.contains(ImpactReason { kind: ImpactReasonKind::TestBehavior, source: unit, target, relation: Some(relation) })
    } else {
        queued.contains(unit)
    }
}

/// A planned unit stays planned as the tests, reasons and queue grow.
proof fn lemma_behavior_planned_kept(
    tests: Seq<OwnerKey>,
    reasons: Seq<ImpactReason>,
    queued: Seq<OwnerKey>,
    later_tests: Seq<OwnerKey>,
    later_reasons: Seq<ImpactReason>,
    later_queued: Seq<OwnerKey>,
    kind: Option<OwnerKind>,
    unit: OwnerKey,
    target: OwnerKey,
    relation: RelationKind,
)
    requires
        behavior_planned(tests, reasons, queued, kind, unit, target, relation),
        grows(tests, later_tests),
        reasons_kept(reasons, later_reasons),
        grows(queued, later_queued),
    ensures
        behavior_planned(later_tests, later_reasons, later_queued, kind, unit, target, relation),
{
}

/// Whether behavior propagation was followed from `target`: every unit that a candidate behavior
/// edge into it reaches is planned.
pub open spec fn behavior_closed_at(
    target: OwnerKey,
    tests: Seq<OwnerKey>,
    reasons: Seq<ImpactReason>,
    queued: Seq<OwnerKey>,
    package: PackageId,
    derived: DerivedDelta,
    evidence: WitnessEvidence,
    authority: CanonicalAuthority,
    delta: CanonicalDeltaView,
) -> bool {
    let edges = candidate_incoming(evidence, derived, package, target);
    forall|j: int, unit: OwnerKey| 0 <= j < edges.len()
        && #[trigger] behavior_units(edges[j], package, derived.ownership@, evidence.ownership, authority, delta).contains(unit)
        ==> behavior_planned(tests, reasons, queued, candidate_kind(authority, delta, evidence, unit), unit, target, edges[j].kind)
}

/// Propagation followed from a target stays followed as the tests, reasons and queue grow.
proof fn lemma_behavior_closed_kept(
    target: OwnerKey,
    tests: Seq<OwnerKey>,
    reasons: Seq<ImpactReason>,
    queued: Seq<OwnerKey>,
    later_tests: Seq<OwnerKey>,
    later_reasons: Seq<ImpactReason>,
    later_queued: Seq<OwnerKey>,
    package: PackageId,
    derived: DerivedDelta,
    evidence: WitnessEvidence,
    authority: CanonicalAuthority,
    delta: CanonicalDeltaView,
)
    requires
        behavior_closed_at(target, tests, reasons, queued, package, derived, evidence, authority, delta),
        grows(tests, later_tests),
        reasons_kept(reasons, later_reasons),
        grows(queued, later_queued),
    ensures
        behavior_closed_at(target, later_tests, later_reasons, later_queued, package, derived, evidence, authority, delta),
{
    let edges = candidate_incoming(evidence, derived, package, target);
    assert forall|j: int, unit: OwnerKey| 0 <= j < edges.len()
        && #[trigger] behavior_units(edges[j], package, derived.ownership@, evidence.ownership, authority, delta).contains(unit)
        implies behavior_planned(later_tests, later_reasons, later_queued, candidate_kind(authority, delta, evidence, unit), unit, target, edges[j].kind) by {
        lemma_behavior_planned_kept(
            tests, reasons, queued, later_tests, later_reasons, later_queued,
            candidate_kind(authority, delta, evidence, unit), unit, target, edges[j].kind,
        );
    }
}

/// Whether behavior propagation was followed to its end: every direct change is queued, and
/// propagation was followed from every queued owner.
pub open spec fn behavior_closed(
    edits: Seq<OwnerSummaryEdit>,
    tests: Seq<OwnerKey>,
    reasons: Seq<ImpactReason>,
    queued: Seq<OwnerKey>,
    package: PackageId,
    derived: DerivedDelta,
    evidence: WitnessEvidence,
    authority: CanonicalAuthority,
    delta: CanonicalDeltaView,
) -> bool {
    &&& forall|k: int| 0 <= k < edits.len() && direct_change(#[trigger] edits[k]) ==> queued.contains(edits[k].owner)
    &&& forall|q: OwnerKey| #[trigger] queued.contains(q)
        ==> behavior_closed_at(q, tests, reasons, queued, package, derived, evidence, authority, delta)
}

/// Whether every owning unit of a local source of `edges` is checked semantically, rebuilt as a
/// compiler unit and queued for behavior propagation.
pub open spec fn dependency_units_planned(
    edges: Seq<RelationEdge>,
    local: PackageId,
    derived: DerivedDelta,
    evidence: WitnessEvidence,
    authority: CanonicalAuthority,
    delta: CanonicalDeltaView,
    queued: Seq<OwnerKey>,
    units: Seq<OwnerKey>,
    semantic: Seq<OwnerKey>,
) -> bool {
    forall|j: int, unit: OwnerKey| 0 <= j < edges.len() && spec_local_owner(edges[j].source, local) is Some
        && #[trigger] units_of(spec_local_owner(edges[j].source, local)->0, derived.ownership@, evidence.ownership, authority, delta).contains(unit)
        ==> queued.contains(unit) && units.contains(unit) && semantic.contains(unit)
}

/// Whether the owning units bound through each of the first `count` changed dependencies that
/// were bound before are planned.
pub open spec fn dependencies_planned(
    dependencies: Seq<(PackageId, DependencyEdit)>,
    count: int,
    package: PackageId,
    derived: DerivedDelta,
    evidence: WitnessEvidence,
    authority: CanonicalAuthority,
    delta: CanonicalDeltaView,
    queued: Seq<OwnerKey>,
    units: Seq<OwnerKey>,
    semantic: Seq<OwnerKey>,
) -> bool {
    forall|j: int| 0 <= j < count && (#[trigger] dependencies[j]).1.before is Some ==> dependency_units_planned(
        candidate_package_incoming(evidence, derived, dependencies[j].0),
        package,
        derived,
        evidence,
        authority,
        delta,
        queued,
        units,
        semantic,
    )
}

/// Planned dependency units stay planned as the queue, the compiler units and the semantic
/// owners grow.
proof fn lemma_dependencies_planned_kept(
    dependencies: Seq<(PackageId, DependencyEdit)>,
    count: int,
    package: PackageId,
    derived: DerivedDelta,
    evidence: WitnessEvidence,
    authority: CanonicalAuthority,
    delta: CanonicalDeltaView,
    queued: Seq<OwnerKey>,
    units: Seq<OwnerKey>,
    semantic: Seq<OwnerKey>,
    later_queued: Seq<OwnerKey>,
    later_units: Seq<OwnerKey>,
    later_semantic: Seq<OwnerKey>,
)
    requires
        dependencies_planned(dependencies, count, package, derived, evidence, authority, delta, queued, units, semantic),
        grows(queued, later_queued),
        grows(units, later_units),
        grows(semantic, later_semantic),
    ensures
        dependencies_planned(dependencies, count, package, derived, evidence, authority, delta, later_queued, later_units, later_semantic),
{
    assert forall|j: int| 0 <= j < count && (#[trigger] dependencies[j]).1.before is Some implies dependency_units_planned(
        candidate_package_incoming(evidence, derived, dependencies[j].0),
        package,
        derived,
        evidence,
        authority,
        delta,
        later_queued,
        later_units,
        later_semantic,
    ) by {
        let edges = candidate_package_incoming(evidence, derived, dependencies[j].0);
        assert forall|i: int, unit: OwnerKey| 0 <= i < edges.len() && spec_local_owner(edges[i].source, package) is Some
            && #[trigger] units_of(spec_local_owner(edges[i].source, package)->0, derived.ownership@, evidence.ownership, authority, delta).contains(unit)
            implies later_queued.contains(unit) && later_units.contains(unit) && later_semantic.contains(unit) by {
            assert(queued.contains(unit) && units.contains(unit) && semantic.contains(unit));
        }
    }
}

/// Whether some queue of behavior owners closes behavior propagation over `edits`, seeded also
/// with the owning units bound through the changed dependencies, which are planned.
pub open spec fn behavior_followed(
    edits: Seq<OwnerSummaryEdit>,
    dependencies: Seq<(PackageId, DependencyEdit)>,
    tests: Seq<OwnerKey>,
    reasons: Seq<ImpactReason>,
    units: Seq<OwnerKey>,
    semantic: Seq<OwnerKey>,
    package: PackageId,
    derived: DerivedDelta,
    evidence: WitnessEvidence,
    authority: CanonicalAuthority,
    delta: CanonicalDeltaView,
) -> bool {
    exists|queued: Seq<OwnerKey>| {
        &&& behavior_closed(edits, tests, reasons, queued, package, derived, evidence, authority, delta)
        &&& dependencies_planned(dependencies, dependencies.len() as int, package, derived, evidence, authority, delta, queued, units, semantic)
    }
}

/// Whether `reasons` plan `test` as a test that behavior propagation reaches.
pub open spec fn behavior_reason_for(reasons: Seq<ImpactReason>, test: OwnerKey) -> bool {
    exists|reason: ImpactReason| #[trigger] reasons.contains(reason)
        && reason.kind == ImpactReasonKind::TestBehavior && reason.source == test
}

/// Whether a planned test is justified: it is checked semantically, or behavior propagation
/// reaches it.
pub open spec fn test_justified(semantic: Seq<OwnerKey>, reasons: Seq<ImpactReason>, test: OwnerKey) -> bool {
    semantic.contains(test) || behavior_reason_for(reasons, test)
}

/// A justified test stays justified as the semantic owners grow and the reasons are kept.
proof fn lemma_test_justified_kept(
    semantic: Seq<OwnerKey>,
    reasons: Seq<ImpactReason>,
    later_semantic: Seq<OwnerKey>,
    later_reasons: Seq<ImpactReason>,
    test: OwnerKey,
)
    requires
        test_justified(semantic, reasons, test),
        grows(semantic, later_semantic),
        reasons_kept(reasons, later_reasons),
    ensures
        test_justified(later_semantic, later_reasons, test),
{
    if !semantic.contains(test) {
        let reason = choose|reason: ImpactReason| #[trigger] reasons.contains(reason)
            && reason.kind == ImpactReasonKind::TestBehavior && reason.source == test;
        assert(later_reasons.contains(reason));
    }
}

/// The evolving state of one impact planning.
struct Planner<W> {
    package: PackageId,
    admitted: Vec<OwnerKey>,
    semantic: Vec<OwnerKey>,
    summary_owners: Vec<OwnerKey>,
    compiler_units: Vec<OwnerKey>,
    tests: Vec<OwnerKey>,
    reasons: Vec<ImpactReason>,
    work: ImpactWork,
    behavior: Vec<OwnerKey>,
    head: usize,
    behavior_seen: Vec<OwnerKey>,
    behavior_enqueued: Vec<OwnerKey>,
    ownership: CandidateOwnership,
    relations: CandidateRelations<W>,
}

impl<W: WitnessBaseRead> Planner<W> {
    /// Every planned owner is admitted, and every counted budget holds.
    spec fn inv(&self, admission: ImpactAdmission) -> bool {
        &&& self.relations.wf()
        &&& ownership_agrees(self.ownership, self.relations)
        &&& paths_selected(
            self.reasons@,
            self.summary_owners@,
            self.relations.derived_delta().ownership@,
            self.relations.source().evidence().ownership,
        )
        &&& within(self.semantic@, self.admitted@)
        &&& within(self.summary_owners@, self.admitted@)
        &&& within(self.compiler_units@, self.admitted@)
        &&& within(self.tests@, self.admitted@)
        &&& self.semantic@.no_duplicates()
        &&& self.summary_owners@.no_duplicates()
        &&& self.compiler_units@.no_duplicates()
        &&& self.tests@.no_duplicates()
        &&& self.admitted@.len() <= admission.maximum_affected_owners
        &&& self.work.ownership_steps <= admission.maximum_ownership_steps
        &&& self.work.behavior_owners_visited <= admission.maximum_behavior_owners
        &&& self.work.summary_edits_examined <= admission.maximum_summary_edits
        &&& self.head <= self.behavior@.len()
        &&& self.relations.local_package() == self.package
        &&& forall|o: OwnerKey| #[trigger] self.behavior_enqueued@.contains(o) ==> self.behavior@.contains(o)
    }

    /// `later` planned on from this state: it keeps every planned owner and reason.
    spec fn advances(&self, later: &Self) -> bool {
        &&& self.relations.evolves_to(&later.relations)
        &&& later.package == self.package
        &&& grows(self.admitted@, later.admitted@)
        &&& grows(self.semantic@, later.semantic@)
        &&& grows(self.summary_owners@, later.summary_owners@)
        &&& reasons_kept(self.reasons@, later.reasons@)
        &&& later.work.summary_owners_examined == self.work.summary_owners_examined
        &&& grows(self.tests@, later.tests@)
        &&& grows(self.compiler_units@, later.compiler_units@)
        &&& grows(self.behavior_enqueued@, later.behavior_enqueued@)
        &&& self.behavior@.len() <= later.behavior@.len()
        &&& forall|i: int| 0 <= i < self.behavior@.len() ==> #[trigger] later.behavior@[i] == self.behavior@[i]
    }

    /// `later` counted no summary edit and visited no behavior owner beyond this state.
    spec fn same_counts(&self, later: &Self) -> bool {
        &&& later.work.summary_edits_examined == self.work.summary_edits_examined
        &&& later.work.behavior_owners_visited == self.work.behavior_owners_visited
        &&& later.behavior_seen@ == self.behavior_seen@
        &&& later.head == self.head
    }

    /// A planner that has planned nothing yet over `initial`.
    spec fn fresh(&self, initial: SummaryDelta) -> bool {
        &&& self.semantic@.len() == 0
        &&& self.summary_owners@ == initial.selected@
        &&& self.compiler_units@.len() == 0
        &&& self.tests@.len() == 0
        &&& self.reasons@.len() == 0
        &&& self.behavior@.len() == 0
        &&& self.head == 0
        &&& self.behavior_seen@.len() == 0
        &&& self.behavior_enqueued@.len() == 0
        &&& self.work == (ImpactWork {
            summary_owners_examined: initial.selected@.len() as u64,
            summary_edits_examined: 0,
            reverse_edges_visited: 0,
            ownership_steps: 0,
            behavior_owners_visited: 0,
            witness_reads: WitnessReadWork::zero(),
        })
        &&& self.ownership.work == WitnessReadWork::zero()
        &&& self.relations.spent() == WitnessReadWork::zero()
    }

    /// Records one more reason.
    fn push_reason(&mut self, reason: ImpactReason)
        ensures
            final(self).reasons@ == old(self).reasons@.push(reason),
            *final(self) == (Planner { reasons: final(self).reasons, ..*old(self) }),
            reasons_kept(old(self).reasons@, final(self).reasons@),
            final(self).reasons@.contains(reason),
    {
        proof {
            lemma_reason_push(self.reasons@, reason);
        }
        self.reasons.push(reason);
    }

    /// Queues `owner` for a behavior visit unless it was queued before.
    fn enqueue_behavior(&mut self, owner: OwnerKey)
        requires
            forall|o: OwnerKey| #[trigger] old(self).behavior_enqueued@.contains(o) ==> old(self).behavior@.contains(o),
        ensures
            *final(self) == (Planner { behavior_enqueued: final(self).behavior_enqueued, behavior: final(self).behavior, ..*old(self) }),
            final(self).behavior_enqueued@ == if old(self).behavior_enqueued@.contains(owner) {
                old(self).behavior_enqueued@
            } else {
                old(self).behavior_enqueued@.push(owner)
            },
            old(self).behavior@.len() <= final(self).behavior@.len(),
            forall|i: int| 0 <= i < old(self).behavior@.len() ==> #[trigger] final(self).behavior@[i] == old(self).behavior@[i],
            grows(old(self).behavior_enqueued@, final(self).behavior_enqueued@),
            final(self).behavior_enqueued@.contains(owner),
            forall|o: OwnerKey| #[trigger] final(self).behavior_enqueued@.contains(o) ==> final(self).behavior@.contains(o),
    {
        let ghost queued = self.behavior_enqueued@;
        let ghost behavior = self.behavior@;
        if insert_owner(&mut self.behavior_enqueued, owner) {
            self.behavior.push(owner);
            proof {
                lemma_owner_push(queued, owner);
                lemma_owner_push(behavior, owner);
                assert forall|o: OwnerKey| #[trigger] self.behavior_enqueued@.contains(o) implies self.behavior@.contains(o) by {
                    if o != owner {
                        let k = choose|k: int| 0 <= k < self.behavior_enqueued@.len() && self.behavior_enqueued@[k] == o;
                        assert(queued[k] == o);
                        assert(queued.contains(o));
                        assert(behavior.contains(o));
                        assert(self.behavior@ == behavior.push(owner));
                    } else {
                        assert(self.behavior@ == behavior.push(owner));
                    }
                }
            }
        }
    }

    /// The relation edges left for the next read, after `initial_read` and the edges visited.
    fn relation_budget(&self, initial_read: u64, admission: ImpactAdmission) -> (r: Result<u64, Diagnostic>)
        ensures
            r is Ok <==> sat_add(initial_read, self.work.reverse_edges_visited) <= admission.maximum_relation_edges,
    {
        remaining_relations(admission.maximum_relation_edges, initial_read.saturating_add(self.work.reverse_edges_visited))
    }

    /// Follows the candidate edges into a changed owner whose validation they depend on.
    fn add_validation_edges<B: CanonicalBaseRead>(
        &mut self,
        overlay: &mut KernelOverlay<B>,
        edges: &Vec<RelationEdge>,
        change: SummaryDimensionChange,
        target: OwnerKey,
        admission: ImpactAdmission,
    ) -> (r: Result<(), Diagnostic>)
        requires
            old(self).inv(admission),
            old(overlay).wf(),
        ensures
            final(self).inv(admission),
            old(self).advances(final(self)),
            old(self).same_counts(final(self)),
            final(self).tests@ == old(self).tests@,
            old(overlay).evolves_to(final(overlay)),
            r is Ok ==> forall|j: int| 0 <= j < edges@.len()
                && change.spec_affects_validation(edges@[j].kind.spec_propagation())
                && spec_local_owner(edges@[j].source, old(self).package) is Some
                ==> final(self).reasons@.contains(validation_reason(#[trigger] edges@[j], old(self).package, target)),
    {
        let mut e: usize = 0;
        while e < edges.len()
            invariant
                self.inv(admission),
                self.tests@ == old(self).tests@,
                old(self).advances(self),
                old(self).same_counts(self),
                old(overlay).evolves_to(overlay),
                e <= edges@.len(),
                forall|j: int| 0 <= j < e
                    && change.spec_affects_validation(edges@[j].kind.spec_propagation())
                    && spec_local_owner(edges@[j].source, old(self).package) is Some
                    ==> self.reasons@.contains(validation_reason(#[trigger] edges@[j], old(self).package, target)),
            decreases edges@.len() - e,
        {
            let ghost reasons_start = self.reasons@;
            let edge = edges[e];
            if change.affects_validation(edge.kind.propagation()) {
                if let Some(source) = local_owner(edge.source, self.package) {
                    let ghost reasons_before = self.reasons@;
                    let ghost owners_before = self.summary_owners@;
                    add_summary_paths(
                        source,
                        &mut self.ownership,
                        &mut self.relations,
                        &mut self.summary_owners,
                        &mut self.work,
                        &mut self.admitted,
                        admission.maximum_affected_owners,
                        admission.maximum_ownership_steps,
                    )?;
                    add_owning_units(
                        source,
                        overlay,
                        &mut self.ownership,
                        &mut self.relations,
                        &mut self.semantic,
                        &mut self.work,
                        &mut self.admitted,
                        admission.maximum_affected_owners,
                        admission.maximum_ownership_steps,
                    )?;
                    add_owning_units(
                        source,
                        overlay,
                        &mut self.ownership,
                        &mut self.relations,
                        &mut self.compiler_units,
                        &mut self.work,
                        &mut self.admitted,
                        admission.maximum_affected_owners,
                        admission.maximum_ownership_steps,
                    )?;
                    proof {
                        lemma_paths_selected_kept(reasons_before, owners_before, self.reasons@, self.summary_owners@, self.relations.derived_delta().ownership@, self.relations.source().evidence().ownership);
                        lemma_paths_selected_push(
                            self.reasons@,
                            ImpactReason { kind: ImpactReasonKind::ValidationDependency, source, target, relation: Some(edge.kind) },
                            self.summary_owners@,
                            self.relations.derived_delta().ownership@,
                            self.relations.source().evidence().ownership,
                        );
                    }
                    self.push_reason(ImpactReason {
                        kind: ImpactReasonKind::ValidationDependency,
                        source,
                        target,
                        relation: Some(edge.kind),
                    });
                    proof {
                        assert(self.reasons@.contains(validation_reason(edges@[e as int], old(self).package, target)));
                    }
                }
            }
            proof {
                assert forall|j: int| 0 <= j < e + 1
                    && change.spec_affects_validation(edges@[j].kind.spec_propagation())
                    && spec_local_owner(edges@[j].source, old(self).package) is Some
                    implies self.reasons@.contains(validation_reason(#[trigger] edges@[j], old(self).package, target)) by {
                    if j < e {
                        assert(reasons_start.contains(validation_reason(edges@[j], old(self).package, target)));
                        assert(reasons_kept(reasons_start, self.reasons@));
                    }
                }
            }
            e = e + 1;
        }
        Ok(())
    }

    /// Plans one summary edit: a direct semantic change where it is one, then the owners whose
    /// validation depends on what changed.
    fn plan_edit<B: CanonicalBaseRead>(
        &mut self,
        overlay: &mut KernelOverlay<B>,
        edit: OwnerSummaryEdit,
        initial_read: u64,
        admission: ImpactAdmission,
    ) -> (r: Result<(), Diagnostic>)
        requires
            old(self).inv(admission),
            old(overlay).wf(),
        ensures
            final(self).inv(admission),
            old(self).advances(final(self)),
            final(self).work.behavior_owners_visited == old(self).work.behavior_owners_visited,
            r is Ok ==> final(self).work.summary_edits_examined == old(self).work.summary_edits_examined + 1,
            r is Ok && direct_change(edit) ==> final(self).semantic@.contains(edit.owner)
                && final(self).reasons@.contains(direct_reason(edit.owner))
                && final(self).behavior_enqueued@.contains(edit.owner),
            final(self).behavior_seen@ == old(self).behavior_seen@,
            final(self).head == old(self).head,
            final(self).tests@ == old(self).tests@,
            old(overlay).evolves_to(final(overlay)),
    {
        admit_summary_edit(&mut self.work, admission.maximum_summary_edits)?;
        let change = summary_dimension_change(&edit);
        let kind = match edit.after {
            Some(summary) => Some(summary.kind),
            None => match edit.before {
                Some(summary) => Some(summary.kind),
                None => None,
            },
        };
        let meaningful = match kind {
            Some(kind) => has_executable_meaning(kind),
            None => false,
        };
        let ghost mut marked = self.semantic@;
        let ghost mut queued = self.behavior_enqueued@;
        if change.executable() && meaningful {
            admit_into(&mut self.semantic, &mut self.admitted, edit.owner, admission.maximum_affected_owners)?;
            proof {
                marked = self.semantic@;
            }
            add_owning_units(
                edit.owner,
                overlay,
                &mut self.ownership,
                &mut self.relations,
                &mut self.compiler_units,
                &mut self.work,
                &mut self.admitted,
                admission.maximum_affected_owners,
                admission.maximum_ownership_steps,
            )?;
            add_owning_units(
                edit.owner,
                overlay,
                &mut self.ownership,
                &mut self.relations,
                &mut self.semantic,
                &mut self.work,
                &mut self.admitted,
                admission.maximum_affected_owners,
                admission.maximum_ownership_steps,
            )?;
            self.enqueue_behavior(edit.owner);
            proof {
                queued = self.behavior_enqueued@;
            }
            proof {
                lemma_paths_selected_push(
                    self.reasons@,
                    ImpactReason { kind: ImpactReasonKind::DirectSemanticChange, source: edit.owner, target: edit.owner, relation: None },
                    self.summary_owners@,
                    self.relations.derived_delta().ownership@,
                    self.relations.source().evidence().ownership,
                );
            }
            self.push_reason(ImpactReason {
                kind: ImpactReasonKind::DirectSemanticChange,
                source: edit.owner,
                target: edit.owner,
                relation: None,
            });
        }
        let ghost recorded = self.reasons@;
        let remaining = self.relation_budget(initial_read, admission)?;
        let read = self.relations.incoming(edit.owner, remaining, admission.maximum_relation_fanout)?;
        self.work.reverse_edges_visited = self.work.reverse_edges_visited.saturating_add(read.edges_examined);
        self.add_validation_edges(overlay, &read.edges, change, edit.owner, admission)?;
        proof {
            if direct_change(edit) {
                assert(marked.contains(edit.owner));
                assert(recorded.contains(direct_reason(edit.owner)));
                assert(queued.contains(edit.owner));
            }
        }
        Ok(())
    }

    /// Plans one changed dependency that was bound before: the owners bound through it.
    fn plan_dependency<B: CanonicalBaseRead>(
        &mut self,
        overlay: &mut KernelOverlay<B>,
        dependency: PackageId,
        initial_read: u64,
        admission: ImpactAdmission,
    ) -> (r: Result<(), Diagnostic>)
        requires
            old(self).inv(admission),
            old(overlay).wf(),
        ensures
            final(self).inv(admission),
            old(self).advances(final(self)),
            old(self).same_counts(final(self)),
            final(self).tests@ == old(self).tests@,
            old(overlay).evolves_to(final(overlay)),
            r is Ok ==> dependency_units_planned(
                candidate_package_incoming(old(self).relations.source().evidence(), old(self).relations.derived_delta(), dependency),
                old(self).package,
                old(self).relations.derived_delta(),
                old(self).relations.source().evidence(),
                old(overlay).base_authority(),
                old(overlay).delta_view(),
                final(self).behavior_enqueued@,
                final(self).compiler_units@,
                final(self).semantic@,
            ),
    {
        let ghost derived = self.relations.derived_delta();
        let ghost evidence = self.relations.source().evidence();
        let ghost authority = overlay.base_authority();
        let ghost delta = overlay.delta_view();
        let ghost local = self.package;
        let remaining = self.relation_budget(initial_read, admission)?;
        let ghost relations = self.relations;
        let read = self.relations.incoming_package(dependency, remaining, admission.maximum_relation_fanout)?;
        proof {
            lemma_candidate_outcome_edges(
                package_base(relations.source().evidence(), dependency),
                relations.package_cached(dependency),
                selected_edges(relations.derived_delta().relations.removed@, EdgeSelection::IncomingPackage(dependency)),
                selected_edges(relations.derived_delta().relations.added@, EdgeSelection::IncomingPackage(dependency)),
                relations.indexed(),
                relation_count(relations.derived_delta()),
                "change_relation_package_remove"@,
                remaining,
                admission.maximum_relation_fanout,
            );
        }
        self.work.reverse_edges_visited = self.work.reverse_edges_visited.saturating_add(read.edges_examined);
        let edges = read.edges;
        let ghost all_edges = candidate_package_incoming(evidence, derived, dependency);
        assert(edges@ == all_edges);
        let mut e: usize = 0;
        while e < edges.len()
            invariant
                self.inv(admission),
                self.tests@ == old(self).tests@,
                old(self).advances(self),
                old(self).same_counts(self),
                old(overlay).evolves_to(overlay),
                e <= edges@.len(),
                edges@ == all_edges,
                derived == old(self).relations.derived_delta(),
                evidence == old(self).relations.source().evidence(),
                authority == old(overlay).base_authority(),
                delta == old(overlay).delta_view(),
                local == old(self).package,
                dependency_units_planned(
                    all_edges.take(e as int),
                    local,
                    derived,
                    evidence,
                    authority,
                    delta,
                    self.behavior_enqueued@,
                    self.compiler_units@,
                    self.semantic@,
                ),
            decreases edges@.len() - e,
        {
            let edge = edges[e];
            let ghost queued_start = self.behavior_enqueued@;
            let ghost units_start = self.compiler_units@;
            let ghost semantic_start = self.semantic@;
            let ghost mut declared: Seq<OwnerKey> = Seq::empty();
            if let Some(source) = local_owner(edge.source, self.package) {
                let ghost reasons_before = self.reasons@;
                let ghost owners_before = self.summary_owners@;
                add_summary_paths(
                    source,
                    &mut self.ownership,
                    &mut self.relations,
                    &mut self.summary_owners,
                    &mut self.work,
                    &mut self.admitted,
                    admission.maximum_affected_owners,
                    admission.maximum_ownership_steps,
                )?;
                let ghost grown = self.summary_owners@;
                proof {
                    lemma_paths_selected_kept(reasons_before, owners_before, self.reasons@, self.summary_owners@, self.relations.derived_delta().ownership@, self.relations.source().evidence().ownership);
                }
                let declarations = owning_units(
                    source,
                    overlay,
                    &mut self.ownership,
                    &mut self.relations,
                    &mut self.work,
                    admission.maximum_ownership_steps,
                )?;
                proof {
                    declared = declarations@;
                }
                let mut d: usize = 0;
                while d < declarations.len()
                    invariant
                        self.inv(admission),
                        self.tests@ == old(self).tests@,
                        old(self).advances(self),
                        old(self).same_counts(self),
                        old(overlay).evolves_to(overlay),
                        self.summary_owners@ == grown,
                        self.relations.derived_delta() == old(self).relations.derived_delta(),
                        self.relations.source().evidence() == old(self).relations.source().evidence(),
                        forall|x: OwnerKey| #[trigger] reaches(source, x, self.relations.derived_delta().ownership@, self.relations.source().evidence().ownership) ==> grown.contains(x),
                        d <= declarations@.len(),
                        declared == declarations@,
                        grows(queued_start, self.behavior_enqueued@),
                        grows(units_start, self.compiler_units@),
                        grows(semantic_start, self.semantic@),
                        forall|k: int| 0 <= k < d ==> self.behavior_enqueued@.contains(#[trigger] declared[k])
                            && self.compiler_units@.contains(declared[k]) && self.semantic@.contains(declared[k]),
                    decreases declarations@.len() - d,
                {
                    let declaration = declarations[d];
                    let ghost queued_before = self.behavior_enqueued@;
                    let ghost units_before = self.compiler_units@;
                    let ghost semantic_before = self.semantic@;
                    admit_into(&mut self.semantic, &mut self.admitted, declaration, admission.maximum_affected_owners)?;
                    let ghost semantic_between = self.semantic@;
                    admit_into(&mut self.compiler_units, &mut self.admitted, declaration, admission.maximum_affected_owners)?;
                    self.enqueue_behavior(declaration);
                    proof {
                        assert(self.semantic@ == semantic_between);
                        assert forall|k: int| 0 <= k < d + 1 implies self.behavior_enqueued@.contains(#[trigger] declared[k])
                            && self.compiler_units@.contains(declared[k]) && self.semantic@.contains(declared[k]) by {
                            if k < d {
                                assert(queued_before.contains(declared[k]));
                                assert(units_before.contains(declared[k]));
                                assert(semantic_before.contains(declared[k]));
                            }
                        }
                    }
                    d = d + 1;
                }
                proof {
                    lemma_paths_selected_push(
                        self.reasons@,
                        ImpactReason { kind: ImpactReasonKind::DependencyBinding, source, target: source, relation: Some(edge.kind) },
                        self.summary_owners@,
                        self.relations.derived_delta().ownership@,
                        self.relations.source().evidence().ownership,
                    );
                }
                self.push_reason(ImpactReason {
                    kind: ImpactReasonKind::DependencyBinding,
                    source,
                    target: source,
                    relation: Some(edge.kind),
                });
            }
            proof {
                let taken = all_edges.take(e + 1);
                assert forall|j: int, unit: OwnerKey| 0 <= j < taken.len() && spec_local_owner(taken[j].source, local) is Some
                    && #[trigger] units_of(spec_local_owner(taken[j].source, local)->0, derived.ownership@, evidence.ownership, authority, delta).contains(unit)
                    implies self.behavior_enqueued@.contains(unit) && self.compiler_units@.contains(unit) && self.semantic@.contains(unit) by {
                    if j < e {
                        assert(all_edges.take(e as int)[j] == taken[j]);
                        assert(queued_start.contains(unit) && units_start.contains(unit) && semantic_start.contains(unit));
                    } else {
                        assert(taken[j] == edge);
                        assert(declared == units_of(spec_local_owner(edge.source, local)->0, derived.ownership@, evidence.ownership, authority, delta));
                        let k = choose|k: int| 0 <= k < declared.len() && declared[k] == unit;
                        assert(self.behavior_enqueued@.contains(declared[k]));
                    }
                }
            }
            e = e + 1;
        }
        assert(all_edges.take(edges@.len() as int) =~= all_edges);
        Ok(())
    }

    /// Follows the candidate edges into a behavior owner: tests that reach it are planned,
    /// other owning units are queued in turn.
    fn add_behavior_edges<B: CanonicalBaseRead>(
        &mut self,
        overlay: &mut KernelOverlay<B>,
        edges: &Vec<RelationEdge>,
        target: OwnerKey,
        admission: ImpactAdmission,
    ) -> (r: Result<(), Diagnostic>)
        requires
            old(self).inv(admission),
            old(overlay).wf(),
        ensures
            final(self).inv(admission),
            old(self).advances(final(self)),
            old(self).same_counts(final(self)),
            final(self).semantic@ == old(self).semantic@,
            final(self).head == old(self).head,
            final(self).behavior_seen@ == old(self).behavior_seen@,
            forall|t: OwnerKey| #[trigger] final(self).tests@.contains(t) ==> old(self).tests@.contains(t) || candidate_kind(old(overlay).base_authority(), old(overlay).delta_view(), old(self).relations.source().evidence(), t) == Some(OwnerKind::Test),
            forall|t: OwnerKey| #[trigger] final(self).tests@.contains(t) ==> old(self).tests@.contains(t) || behavior_reason_for(final(self).reasons@, t),
            old(overlay).evolves_to(final(overlay)),
            r is Ok ==> forall|j: int, unit: OwnerKey| 0 <= j < edges@.len()
                && #[trigger] behavior_units(edges@[j], old(self).package, old(self).relations.derived_delta().ownership@, old(self).relations.source().evidence().ownership, old(overlay).base_authority(), old(overlay).delta_view()).contains(unit)
                ==> behavior_planned(
                    final(self).tests@,
                    final(self).reasons@,
                    final(self).behavior_enqueued@,
                    candidate_kind(old(overlay).base_authority(), old(overlay).delta_view(), old(self).relations.source().evidence(), unit),
                    unit,
                    target,
                    edges@[j].kind,
                ),
    {
        let ghost edits = self.relations.derived_delta().ownership@;
        let ghost base = self.relations.source().evidence().ownership;
        let ghost evidence = self.relations.source().evidence();
        let ghost authority = overlay.base_authority();
        let ghost delta = overlay.delta_view();
        let mut e: usize = 0;
        while e < edges.len()
            invariant
                self.inv(admission),
                forall|t: OwnerKey| #[trigger] self.tests@.contains(t) ==> old(self).tests@.contains(t) || behavior_reason_for(self.reasons@, t),
                forall|t: OwnerKey| #[trigger] self.tests@.contains(t) ==> old(self).tests@.contains(t) || candidate_kind(authority, delta, evidence, t) == Some(OwnerKind::Test),
                old(self).advances(self),
                old(self).same_counts(self),
                self.semantic@ == old(self).semantic@,
                self.head == old(self).head,
                self.behavior_seen@ == old(self).behavior_seen@,
                old(overlay).evolves_to(overlay),
                e <= edges@.len(),
                edits == old(self).relations.derived_delta().ownership@,
                base == old(self).relations.source().evidence().ownership,
                evidence == old(self).relations.source().evidence(),
                authority == old(overlay).base_authority(),
                delta == old(overlay).delta_view(),
                forall|j: int, unit: OwnerKey| 0 <= j < e
                    && #[trigger] behavior_units(edges@[j], old(self).package, edits, base, authority, delta).contains(unit)
                    ==> behavior_planned(
                        self.tests@,
                        self.reasons@,
                        self.behavior_enqueued@,
                        candidate_kind(authority, delta, evidence, unit),
                        unit,
                        target,
                        edges@[j].kind,
                    ),
            decreases edges@.len() - e,
        {
            let edge = edges[e];
            let ghost tests_start = self.tests@;
            let ghost reasons_start = self.reasons@;
            let ghost queued_start = self.behavior_enqueued@;
            let class = edge.kind.propagation();
            let follows = match class {
                PropagationClass::Ownership | PropagationClass::Presentation => false,
                _ => true,
            };
            if follows {
                if let Some(source) = local_owner(edge.source, self.package) {
                    let declarations = owning_units(
                        source,
                        overlay,
                        &mut self.ownership,
                        &mut self.relations,
                        &mut self.work,
                        admission.maximum_ownership_steps,
                    )?;
                    proof {
                        assert(declarations@ == behavior_units(edges@[e as int], old(self).package, edits, base, authority, delta));
                    }
                    let mut d: usize = 0;
                    while d < declarations.len()
                        invariant
                            self.inv(admission),
                            forall|t: OwnerKey| #[trigger] self.tests@.contains(t) ==> old(self).tests@.contains(t) || behavior_reason_for(self.reasons@, t),
                            forall|t: OwnerKey| #[trigger] self.tests@.contains(t) ==> old(self).tests@.contains(t) || candidate_kind(authority, delta, evidence, t) == Some(OwnerKind::Test),
                            old(self).advances(self),
                            old(self).same_counts(self),
                            self.semantic@ == old(self).semantic@,
                            self.head == old(self).head,
                            self.behavior_seen@ == old(self).behavior_seen@,
                self.head == old(self).head,
                self.behavior_seen@ == old(self).behavior_seen@,
                            old(overlay).evolves_to(overlay),
                            d <= declarations@.len(),
                            edits == old(self).relations.derived_delta().ownership@,
                            base == old(self).relations.source().evidence().ownership,
                            evidence == old(self).relations.source().evidence(),
                            authority == old(overlay).base_authority(),
                            delta == old(overlay).delta_view(),
                            grows(tests_start, self.tests@),
                            reasons_kept(reasons_start, self.reasons@),
                            grows(queued_start, self.behavior_enqueued@),
                            forall|k: int| 0 <= k < d ==> behavior_planned(
                                self.tests@,
                                self.reasons@,
                                self.behavior_enqueued@,
                                candidate_kind(authority, delta, evidence, #[trigger] declarations@[k]),
                                declarations@[k],
                                target,
                                edge.kind,
                            ),
                        decreases declarations@.len() - d,
                    {
                        let declaration = declarations[d];
                        let ghost tests_before = self.tests@;
                        let ghost reasons_before = self.reasons@;
                        let ghost queued_before = self.behavior_enqueued@;
                        let kind = self.ownership.owner_kind(declaration, overlay, &mut self.relations)?;
                        proof {
                            assert(kind == candidate_kind(authority, delta, evidence, declaration));
                        }
                        match kind {
                            Some(OwnerKind::Test) => {
                                admit_into(&mut self.tests, &mut self.admitted, declaration, admission.maximum_affected_owners)?;
                                proof {
                                    assert(candidate_kind(authority, delta, evidence, declaration) == Some(OwnerKind::Test));
                                    assert forall|t: OwnerKey| #[trigger] self.tests@.contains(t) implies old(self).tests@.contains(t)
                                        || candidate_kind(authority, delta, evidence, t) == Some(OwnerKind::Test) by {
                                        if t != declaration {
                                            if !tests_before.contains(declaration) {
                                                let k = choose|k: int| 0 <= k < self.tests@.len() && self.tests@[k] == t;
                                                assert(tests_before[k] == t);
                                            }
                                            assert(tests_before.contains(t));
                                        }
                                    }
                                }
                                proof {
                                    lemma_paths_selected_push(
                                        self.reasons@,
                                        ImpactReason {
                                            kind: ImpactReasonKind::TestBehavior,
                                            source: declaration,
                                            target,
                                            relation: Some(edge.kind),
                                        },
                                        self.summary_owners@,
                                        self.relations.derived_delta().ownership@,
                                        self.relations.source().evidence().ownership,
                                    );
                                }
                                self.push_reason(ImpactReason {
                                    kind: ImpactReasonKind::TestBehavior,
                                    source: declaration,
                                    target,
                                    relation: Some(edge.kind),
                                });
                            },
                            _ => {
                                self.enqueue_behavior(declaration);
                                proof {
                                    lemma_owner_push(queued_before, declaration);
                                }
                            },
                        }
                        proof {
                            assert forall|t: OwnerKey| #[trigger] self.tests@.contains(t) implies old(self).tests@.contains(t)
                                || behavior_reason_for(self.reasons@, t) by {
                                if tests_before.contains(t) {
                                    if !old(self).tests@.contains(t) {
                                        let reason = choose|reason: ImpactReason| #[trigger] reasons_before.contains(reason)
                                            && reason.kind == ImpactReasonKind::TestBehavior && reason.source == t;
                                        assert(self.reasons@.contains(reason));
                                    }
                                } else {
                                    assert(t == declaration) by {
                                        if t != declaration {
                                            let k = choose|k: int| 0 <= k < self.tests@.len() && self.tests@[k] == t;
                                            assert(tests_before[k] == t);
                                        }
                                    }
                                    let reason = ImpactReason {
                                        kind: ImpactReasonKind::TestBehavior,
                                        source: declaration,
                                        target,
                                        relation: Some(edge.kind),
                                    };
                                    assert(self.reasons@.contains(reason));
                                }
                            }
                            assert forall|k: int| 0 <= k < d + 1 implies behavior_planned(
                                self.tests@,
                                self.reasons@,
                                self.behavior_enqueued@,
                                candidate_kind(authority, delta, evidence, #[trigger] declarations@[k]),
                                declarations@[k],
                                target,
                                edge.kind,
                            ) by {
                                if k < d {
                                    lemma_behavior_planned_kept(
                                        tests_before, reasons_before, queued_before,
                                        self.tests@, self.reasons@, self.behavior_enqueued@,
                                        candidate_kind(authority, delta, evidence, declarations@[k]),
                                        declarations@[k], target, edge.kind,
                                    );
                                }
                            }
                        }
                        d = d + 1;
                    }
                }
            }
            proof {
                assert forall|j: int, unit: OwnerKey| 0 <= j < e + 1
                    && #[trigger] behavior_units(edges@[j], old(self).package, edits, base, authority, delta).contains(unit)
                    implies behavior_planned(
                        self.tests@,
                        self.reasons@,
                        self.behavior_enqueued@,
                        candidate_kind(authority, delta, evidence, unit),
                        unit,
                        target,
                        edges@[j].kind,
                    ) by {
                    if j < e {
                        lemma_behavior_planned_kept(
                            tests_start, reasons_start, queued_start,
                            self.tests@, self.reasons@, self.behavior_enqueued@,
                            candidate_kind(authority, delta, evidence, unit),
                            unit, target, edges@[j].kind,
                        );
                    }
                }
            }
            e = e + 1;
        }
        Ok(())
    }

    /// Visits the next queued behavior owner, unless it was visited already.
    fn visit_next<B: CanonicalBaseRead>(
        &mut self,
        overlay: &mut KernelOverlay<B>,
        initial_read: u64,
        admission: ImpactAdmission,
    ) -> (r: Result<(), Diagnostic>)
        requires
            old(self).inv(admission),
            old(overlay).wf(),
            old(self).head < old(self).behavior@.len(),
        ensures
            final(self).inv(admission),
            old(self).advances(final(self)),
            final(self).semantic@ == old(self).semantic@,
            final(self).work.summary_edits_examined == old(self).work.summary_edits_examined,
            r is Ok ==> final(self).work.behavior_owners_visited > old(self).work.behavior_owners_visited
                || (final(self).work.behavior_owners_visited == old(self).work.behavior_owners_visited
                    && final(self).behavior@.len() - final(self).head < old(self).behavior@.len() - old(self).head),
            forall|t: OwnerKey| #[trigger] final(self).tests@.contains(t) ==> old(self).tests@.contains(t) || candidate_kind(old(overlay).base_authority(), old(overlay).delta_view(), old(self).relations.source().evidence(), t) == Some(OwnerKind::Test),
            forall|t: OwnerKey| #[trigger] final(self).tests@.contains(t) ==> old(self).tests@.contains(t) || behavior_reason_for(final(self).reasons@, t),
            old(overlay).evolves_to(final(overlay)),
            final(self).head == old(self).head + 1,
            old(self).behavior_seen@.contains(old(self).behavior@[old(self).head as int])
                ==> r is Ok && *final(self) == (Planner { head: final(self).head, ..*old(self) }),
            !old(self).behavior_seen@.contains(old(self).behavior@[old(self).head as int])
                && old(self).work.behavior_owners_visited >= admission.maximum_behavior_owners
                ==> (r matches Err(d) && d.code@ == "change_budget_impact_behavior_owners"@),
            r is Ok && !old(self).behavior_seen@.contains(old(self).behavior@[old(self).head as int])
                ==> final(self).behavior_seen@ == old(self).behavior_seen@.push(old(self).behavior@[old(self).head as int])
                    && final(self).work.behavior_owners_visited == old(self).work.behavior_owners_visited + 1
                    && behavior_closed_at(
                        old(self).behavior@[old(self).head as int],
                        final(self).tests@,
                        final(self).reasons@,
                        final(self).behavior_enqueued@,
                        old(self).package,
                        old(self).relations.derived_delta(),
                        old(self).relations.source().evidence(),
                        old(overlay).base_authority(),
                        old(overlay).delta_view(),
                    ),
    {
        let queued = self.behavior.len();
        let target = self.behavior[self.head];
        self.head = if self.head < queued { self.head + 1 } else { queued };
        if contains_owner(&self.behavior_seen, target) {
            return Ok(());
        }
        admit_behavior_owner(&mut self.work, admission.maximum_behavior_owners)?;
        self.behavior_seen.push(target);
        let remaining = self.relation_budget(initial_read, admission)?;
        let ghost relations = self.relations;
        let read = self.relations.incoming(target, remaining, admission.maximum_relation_fanout)?;
        proof {
            lemma_candidate_outcome_edges(
                incoming_base(relations.source().evidence(), target),
                relations.incoming_cached(target),
                selected_edges(relations.derived_delta().relations.removed@, EdgeSelection::Incoming(owner_endpoint(relations.local_package(), target))),
                selected_edges(relations.derived_delta().relations.added@, EdgeSelection::Incoming(owner_endpoint(relations.local_package(), target))),
                relations.indexed(),
                relation_count(relations.derived_delta()),
                "change_relation_reverse_remove"@,
                remaining,
                admission.maximum_relation_fanout,
            );
            assert(read.edges@ == candidate_incoming(relations.source().evidence(), relations.derived_delta(), relations.local_package(), target));
        }
        self.work.reverse_edges_visited = self.work.reverse_edges_visited.saturating_add(read.edges_examined);
        self.add_behavior_edges(overlay, &read.edges, target, admission)
    }

    /// Plans every semantically checked owner that is a test as a test to run.
    fn mark_tests<B: CanonicalBaseRead>(&mut self, overlay: &mut KernelOverlay<B>, admission: ImpactAdmission) -> (r: Result<(), Diagnostic>)
        requires
            old(self).inv(admission),
            old(overlay).wf(),
        ensures
            final(self).inv(admission),
            old(self).advances(final(self)),
            old(self).same_counts(final(self)),
            final(self).semantic@ == old(self).semantic@,
            final(self).reasons@ == old(self).reasons@,
            old(overlay).evolves_to(final(overlay)),
            r is Ok ==> forall|owner: OwnerKey| old(self).semantic@.contains(owner)
                && candidate_kind(
                    old(overlay).base_authority(),
                    old(overlay).delta_view(),
                    old(self).relations.source().evidence(),
                    owner,
                ) == Some(OwnerKind::Test) ==> #[trigger] final(self).tests@.contains(owner),
            forall|owner: OwnerKey| #[trigger] final(self).tests@.contains(owner) ==> old(self).tests@.contains(owner)
                || (old(self).semantic@.contains(owner) && candidate_kind(
                    old(overlay).base_authority(),
                    old(overlay).delta_view(),
                    old(self).relations.source().evidence(),
                    owner,
                ) == Some(OwnerKind::Test)),
    {
        let ghost authority = overlay.base_authority();
        let ghost delta = overlay.delta_view();
        let ghost evidence = self.relations.source().evidence();
        let mut i: usize = 0;
        while i < self.semantic.len()
            invariant
                self.inv(admission),
                old(self).advances(self),
                old(self).same_counts(self),
                self.semantic@ == old(self).semantic@,
                self.reasons@ == old(self).reasons@,
                old(overlay).evolves_to(overlay),
                i <= self.semantic@.len(),
                authority == old(overlay).base_authority(),
                delta == old(overlay).delta_view(),
                evidence == old(self).relations.source().evidence(),
                forall|j: int| 0 <= j < i && candidate_kind(authority, delta, evidence, #[trigger] self.semantic@[j]) == Some(OwnerKind::Test)
                    ==> self.tests@.contains(self.semantic@[j]),
                forall|owner: OwnerKey| #[trigger] self.tests@.contains(owner) ==> old(self).tests@.contains(owner)
                    || (old(self).semantic@.contains(owner) && candidate_kind(authority, delta, evidence, owner) == Some(OwnerKind::Test)),
            decreases self.semantic@.len() - i,
        {
            let owner = self.semantic[i];
            let ghost tests_before = self.tests@;
            let kind = self.ownership.owner_kind(owner, overlay, &mut self.relations)?;
            proof {
                assert(kind == candidate_kind(authority, delta, evidence, owner));
            }
            match kind {
                Some(OwnerKind::Test) => {
                    admit_into(&mut self.tests, &mut self.admitted, owner, admission.maximum_affected_owners)?;
                    proof {
                        assert(candidate_kind(authority, delta, evidence, owner) == Some(OwnerKind::Test));
                        assert(old(self).semantic@.contains(owner)) by {
                            assert(self.semantic@[i as int] == owner);
                        }
                        assert forall|o: OwnerKey| #[trigger] self.tests@.contains(o) implies old(self).tests@.contains(o)
                            || (old(self).semantic@.contains(o) && candidate_kind(authority, delta, evidence, o) == Some(OwnerKind::Test)) by {
                            if o != owner {
                                if !tests_before.contains(owner) {
                                    let k = choose|k: int| 0 <= k < self.tests@.len() && self.tests@[k] == o;
                                    assert(tests_before[k] == o);
                                }
                                assert(tests_before.contains(o));
                            }
                        }
                        assert forall|j: int| 0 <= j < i + 1 && candidate_kind(authority, delta, evidence, #[trigger] self.semantic@[j]) == Some(OwnerKind::Test)
                            implies self.tests@.contains(self.semantic@[j]) by {
                            if j < i {
                                assert(tests_before.contains(self.semantic@[j]));
                                assert(grows(tests_before, self.tests@));
                            }
                        }
                    }
                },
                _ => {},
            }
            i = i + 1;
        }
        proof {
            assert forall|owner: OwnerKey| old(self).semantic@.contains(owner)
                && candidate_kind(authority, delta, evidence, owner) == Some(OwnerKind::Test)
                implies #[trigger] self.tests@.contains(owner) by {
                let j = choose|j: int| 0 <= j < self.semantic@.len() && self.semantic@[j] == owner;
            }
        }
        Ok(())
    }
}


/// Plans the reverse impact of a change: which owners to check structurally and semantically,
/// whose summaries to derive again, which compiler units and tests to rebuild, and why.
/// `initial` is the summary delta of the derived summary candidates; each of its selected owners
/// occurs once.
pub fn plan_impact<B: CanonicalBaseRead, W: WitnessBaseRead>(
    overlay: &mut KernelOverlay<B>,
    canonical: &CanonicalDelta,
    derived: DerivedDelta,
    base_witness: W,
    initial: &SummaryDelta,
    admission: ImpactAdmission,
) -> (r: Result<ImpactPlan, Diagnostic>)
    requires
        old(overlay).wf(),
        initial.selected@.no_duplicates(),
    ensures
        old(overlay).evolves_to(final(overlay)),
        r matches Ok(plan) ==> plan_meets(plan, canonical@, *initial, admission),
        r matches Ok(plan) ==> behavior_followed(
            initial.edits@,
            canonical@.dependencies,
            plan.tests@,
            plan.reasons@,
            plan.compiler_units@,
            plan.semantically_checked@,
            old(overlay).base_authority().root.package_id,
            derived,
            base_witness.evidence(),
            old(overlay).base_authority(),
            old(overlay).delta_view(),
        ),
        r matches Ok(plan) ==> paths_selected(plan.reasons@, plan.summary_owners@, derived.ownership@, base_witness.evidence().ownership),
        r matches Ok(plan) ==> forall|t: OwnerKey| #[trigger] plan.tests@.contains(t)
            ==> test_justified(plan.semantically_checked@, plan.reasons@, t),
        r matches Ok(plan) ==> forall|t: OwnerKey| #[trigger] plan.tests@.contains(t) ==> candidate_kind(
            old(overlay).base_authority(),
            old(overlay).delta_view(),
            base_witness.evidence(),
            t,
        ) == Some(OwnerKind::Test),
        r matches Ok(plan) ==> forall|owner: OwnerKey| plan.semantically_checked@.contains(owner) && candidate_kind(
            old(overlay).base_authority(),
            old(overlay).delta_view(),
            base_witness.evidence(),
            owner,
        ) == Some(OwnerKind::Test) ==> #[trigger] plan.tests@.contains(owner),
        quiet_request(canonical@, *initial)
            && initial.selected@.len() <= admission.maximum_affected_owners
            && 2 * initial.selected@.len() <= admission.maximum_summary_owners
            && initial.relation_edges_read <= admission.maximum_relation_edges
            ==> (r matches Ok(plan) && quiet_plan(plan, *initial)),
        calm_request(canonical@, *initial)
            && canonical.owners@.len() + initial.selected@.len() <= admission.maximum_affected_owners
            && 2 * initial.selected@.len() <= admission.maximum_summary_owners
            && initial.relation_edges_read <= admission.maximum_relation_edges
            ==> (r matches Ok(plan) && calm_plan(plan, canonical@, *initial)),
{
    let ghost quiet = quiet_request(canonical@, *initial);
    let ghost calm = calm_request(canonical@, *initial);
    let max_affected = admission.maximum_affected_owners;
    let mut admitted: Vec<OwnerKey> = Vec::new();
    let mut structural: Vec<OwnerKey> = Vec::new();
    let mut k: usize = 0;
    while k < canonical.owners.len()
        invariant
            k <= canonical.owners@.len(),
            old(overlay).evolves_to(overlay),
            max_affected == admission.maximum_affected_owners,
            admitted@.len() <= k,
            admitted@.len() <= max_affected,
            structural@.len() == k,
            forall|i: int| 0 <= i < k ==> #[trigger] structural@[i] == canonical.owners@[i].0,
            within(structural@, admitted@),
        decreases canonical.owners@.len() - k,
    {
        let owner = canonical.owners[k].0;
        admit_more(&mut admitted, owner, max_affected)?;
        structural.push(owner);
        k = k + 1;
    }
    proof {
        assert(structural@ =~= canonical@.owners.map_values(|entry: (OwnerKey, OwnerEdit)| entry.0));
    }
    let mut k: usize = 0;
    while k < initial.selected.len()
        invariant
            k <= initial.selected@.len(),
            old(overlay).evolves_to(overlay),
            max_affected == admission.maximum_affected_owners,
            quiet == quiet_request(canonical@, *initial),
            admitted@.len() <= canonical.owners@.len() + k,
            admitted@.len() <= max_affected,
            quiet && initial.selected@.len() <= max_affected ==> admitted@.len() <= k,
            within(structural@, admitted@),
            forall|i: int| 0 <= i < k ==> admitted@.contains(#[trigger] initial.selected@[i]),
        decreases initial.selected@.len() - k,
    {
        admit_more(&mut admitted, initial.selected[k], max_affected)?;
        k = k + 1;
    }
    let mut summary_owners = crate::kernel::copy_entries(&initial.selected);
    let ghost derived_ownership = derived.ownership@;
    let ghost derived_value = derived;
    let ghost authority = old(overlay).base_authority();
    let ghost delta_view = old(overlay).delta_view();
    let ghost base_evidence = base_witness.evidence();
    let package = overlay.package_id();
    let ownership = CandidateOwnership::new(&derived);
    let relations = CandidateRelations::new(package, derived, base_witness);
    let mut planner = Planner {
        package,
        admitted,
        semantic: Vec::new(),
        summary_owners,
        compiler_units: Vec::new(),
        tests: Vec::new(),
        reasons: Vec::new(),
        work: ImpactWork { summary_owners_examined: initial.selected.len() as u64, ..ImpactWork::default() },
        behavior: Vec::new(),
        head: 0,
        behavior_seen: Vec::new(),
        behavior_enqueued: Vec::new(),
        ownership,
        relations,
    };
    proof {
        assert forall|o: OwnerKey| initial.selected@.contains(o) implies #[trigger] planner.summary_owners@.contains(o) by {}
        assert forall|i: int| 0 <= i < planner.summary_owners@.len()
            implies planner.admitted@.contains(#[trigger] planner.summary_owners@[i]) by {
            assert(planner.summary_owners@[i] == initial.selected@[i]);
        }
    }
    let ghost start = planner;
    let initial_read = initial.relation_edges_read;
    let mut i: usize = 0;
    while i < initial.edits.len()
        invariant
            i <= initial.edits@.len(),
            quiet == quiet_request(canonical@, *initial),
            calm == calm_request(canonical@, *initial),
            quiet ==> calm,
            calm ==> planner == start,
            start.fresh(*initial),
            within(structural@, planner.admitted@),
            planner.relations.derived_delta().ownership@ == derived_ownership,
            planner.relations.source().evidence() == base_evidence,
            planner.inv(admission),
            forall|t: OwnerKey| #[trigger] planner.tests@.contains(t) ==> test_justified(planner.semantic@, planner.reasons@, t),
            forall|t: OwnerKey| #[trigger] planner.tests@.contains(t) ==> candidate_kind(old(overlay).base_authority(), old(overlay).delta_view(), base_evidence, t) == Some(OwnerKind::Test),
            old(overlay).evolves_to(overlay),
            planner.work.summary_edits_examined == i,
            planner.work.summary_owners_examined == initial.selected@.len(),
            grows(initial.selected@, planner.summary_owners@),
            records_direct(initial.edits@, i as int, planner.semantic@, planner.reasons@),
            planner.behavior_seen@.len() == 0,
            planner.head == 0,
            planner.package == authority.root.package_id,
            planner.relations.derived_delta() == derived_value,
            forall|k: int| 0 <= k < i && direct_change(#[trigger] initial.edits@[k])
                ==> planner.behavior_enqueued@.contains(initial.edits@[k].owner),
        decreases initial.edits@.len() - i,
    {
        let ghost before = planner;
        planner.plan_edit(overlay, initial.edits[i], initial_read, admission)?;
        proof {
            assert forall|t: OwnerKey| #[trigger] planner.tests@.contains(t) implies test_justified(planner.semantic@, planner.reasons@, t) by {
                if before.tests@.contains(t) {
                    lemma_test_justified_kept(before.semantic@, before.reasons@, planner.semantic@, planner.reasons@, t);
                }
            }
        }
        proof {
            lemma_records_direct_grow(initial.edits@, i as int, before.semantic@, before.reasons@, planner.semantic@, planner.reasons@);
        }
        proof {
            assert forall|k: int| 0 <= k < i + 1 && direct_change(#[trigger] initial.edits@[k])
                implies planner.behavior_enqueued@.contains(initial.edits@[k].owner) by {
                if k < i {
                    assert(before.behavior_enqueued@.contains(initial.edits@[k].owner));
                }
            }
        }
        i = i + 1;
    }
    let mut j: usize = 0;
    while j < canonical.dependencies.len()
        invariant
            j <= canonical.dependencies@.len(),
            quiet == quiet_request(canonical@, *initial),
            calm == calm_request(canonical@, *initial),
            quiet ==> calm,
            calm ==> planner == start,
            start.fresh(*initial),
            within(structural@, planner.admitted@),
            planner.relations.derived_delta().ownership@ == derived_ownership,
            planner.relations.source().evidence() == base_evidence,
            planner.inv(admission),
            forall|t: OwnerKey| #[trigger] planner.tests@.contains(t) ==> test_justified(planner.semantic@, planner.reasons@, t),
            forall|t: OwnerKey| #[trigger] planner.tests@.contains(t) ==> candidate_kind(old(overlay).base_authority(), old(overlay).delta_view(), base_evidence, t) == Some(OwnerKind::Test),
            old(overlay).evolves_to(overlay),
            planner.work.summary_edits_examined == initial.edits@.len(),
            planner.work.summary_owners_examined == initial.selected@.len(),
            grows(initial.selected@, planner.summary_owners@),
            records_direct(initial.edits@, initial.edits@.len() as int, planner.semantic@, planner.reasons@),
            planner.behavior_seen@.len() == 0,
            planner.head == 0,
            planner.package == authority.root.package_id,
            planner.relations.derived_delta() == derived_value,
            authority == old(overlay).base_authority(),
            delta_view == old(overlay).delta_view(),
            forall|k: int| 0 <= k < initial.edits@.len() && direct_change(#[trigger] initial.edits@[k])
                ==> planner.behavior_enqueued@.contains(initial.edits@[k].owner),
            dependencies_planned(
                canonical.dependencies@,
                j as int,
                authority.root.package_id,
                derived_value,
                base_evidence,
                authority,
                delta_view,
                planner.behavior_enqueued@,
                planner.compiler_units@,
                planner.semantic@,
            ),
        decreases canonical.dependencies@.len() - j,
    {
        let (dependency, edit) = canonical.dependencies[j];
        let ghost at_start = planner;
        if edit.before.is_some() {
            let ghost before = planner;
            let ghost overlay_before = *overlay;
            planner.plan_dependency(overlay, dependency, initial_read, admission)?;
            proof {
                assert(overlay_before.base_authority() == authority);
                assert(overlay_before.delta_view() == delta_view);
            }
            proof {
                assert forall|t: OwnerKey| #[trigger] planner.tests@.contains(t) implies test_justified(planner.semantic@, planner.reasons@, t) by {
                    if before.tests@.contains(t) {
                        lemma_test_justified_kept(before.semantic@, before.reasons@, planner.semantic@, planner.reasons@, t);
                    }
                }
            }
            proof {
                lemma_records_direct_grow(
                    initial.edits@,
                    initial.edits@.len() as int,
                    before.semantic@,
                    before.reasons@,
                    planner.semantic@,
                    planner.reasons@,
                );
            }
        }
        proof {
            lemma_dependencies_planned_kept(
                canonical.dependencies@,
                j as int,
                authority.root.package_id,
                derived_value,
                base_evidence,
                authority,
                delta_view,
                at_start.behavior_enqueued@,
                at_start.compiler_units@,
                at_start.semantic@,
                planner.behavior_enqueued@,
                planner.compiler_units@,
                planner.semantic@,
            );
            assert(canonical.dependencies@[j as int] == (dependency, edit));
        }
        j = j + 1;
    }
    while planner.head < planner.behavior.len()
        invariant
            quiet == quiet_request(canonical@, *initial),
            calm == calm_request(canonical@, *initial),
            quiet ==> calm,
            calm ==> planner == start,
            start.fresh(*initial),
            within(structural@, planner.admitted@),
            planner.relations.derived_delta().ownership@ == derived_ownership,
            planner.relations.source().evidence() == base_evidence,
            planner.inv(admission),
            forall|t: OwnerKey| #[trigger] planner.tests@.contains(t) ==> test_justified(planner.semantic@, planner.reasons@, t),
            forall|t: OwnerKey| #[trigger] planner.tests@.contains(t) ==> candidate_kind(old(overlay).base_authority(), old(overlay).delta_view(), base_evidence, t) == Some(OwnerKind::Test),
            old(overlay).evolves_to(overlay),
            planner.work.summary_edits_examined == initial.edits@.len(),
            planner.work.summary_owners_examined == initial.selected@.len(),
            grows(initial.selected@, planner.summary_owners@),
            records_direct(initial.edits@, initial.edits@.len() as int, planner.semantic@, planner.reasons@),
            planner.package == authority.root.package_id,
            planner.relations.derived_delta() == derived_value,
            authority == old(overlay).base_authority(),
            delta_view == old(overlay).delta_view(),
            derived_value == derived,
            forall|k: int| 0 <= k < initial.edits@.len() && direct_change(#[trigger] initial.edits@[k])
                ==> planner.behavior_enqueued@.contains(initial.edits@[k].owner),
            forall|k: int| 0 <= k < planner.head ==> planner.behavior_seen@.contains(#[trigger] planner.behavior@[k]),
            dependencies_planned(
                canonical.dependencies@,
                canonical.dependencies@.len() as int,
                authority.root.package_id,
                derived_value,
                base_evidence,
                authority,
                delta_view,
                planner.behavior_enqueued@,
                planner.compiler_units@,
                planner.semantic@,
            ),
            forall|q: OwnerKey| #[trigger] planner.behavior_seen@.contains(q) ==> behavior_closed_at(
                q,
                planner.tests@,
                planner.reasons@,
                planner.behavior_enqueued@,
                authority.root.package_id,
                derived_value,
                base_evidence,
                authority,
                delta_view,
            ),
        decreases
            admission.maximum_behavior_owners - planner.work.behavior_owners_visited,
            planner.behavior@.len() - planner.head,
    {
        let ghost before = planner;
        let ghost target = planner.behavior@[planner.head as int];
        let ghost overlay_before = *overlay;
        planner.visit_next(overlay, initial_read, admission)?;
        proof {
            assert(overlay_before.base_authority() == authority);
            assert(overlay_before.delta_view() == delta_view);
            lemma_dependencies_planned_kept(
                canonical.dependencies@,
                canonical.dependencies@.len() as int,
                authority.root.package_id,
                derived_value,
                base_evidence,
                authority,
                delta_view,
                before.behavior_enqueued@,
                before.compiler_units@,
                before.semantic@,
                planner.behavior_enqueued@,
                planner.compiler_units@,
                planner.semantic@,
            );
            assert forall|q: OwnerKey| #[trigger] planner.behavior_seen@.contains(q) implies behavior_closed_at(
                q,
                planner.tests@,
                planner.reasons@,
                planner.behavior_enqueued@,
                authority.root.package_id,
                derived_value,
                base_evidence,
                authority,
                delta_view,
            ) by {
                if before.behavior_seen@.contains(q) {
                    lemma_behavior_closed_kept(
                        q,
                        before.tests@,
                        before.reasons@,
                        before.behavior_enqueued@,
                        planner.tests@,
                        planner.reasons@,
                        planner.behavior_enqueued@,
                        authority.root.package_id,
                        derived_value,
                        base_evidence,
                        authority,
                        delta_view,
                    );
                } else {
                    assert(!before.behavior_seen@.contains(target));
                    assert(planner.behavior_seen@ == before.behavior_seen@.push(target));
                    assert(q == target) by {
                        let k = choose|k: int| 0 <= k < planner.behavior_seen@.len() && planner.behavior_seen@[k] == q;
                        if k < before.behavior_seen@.len() {
                            assert(before.behavior_seen@[k] == q);
                        }
                    }
                }
            }
            assert forall|k: int| 0 <= k < planner.head implies planner.behavior_seen@.contains(#[trigger] planner.behavior@[k]) by {
                if k < before.head {
                    assert(planner.behavior@[k] == before.behavior@[k]);
                    assert(before.behavior_seen@.contains(before.behavior@[k]));
                    if !before.behavior_seen@.contains(target) {
                        lemma_owner_push(before.behavior_seen@, target);
                    }
                } else {
                    assert(planner.behavior@[k] == target);
                    if !before.behavior_seen@.contains(target) {
                        lemma_owner_push(before.behavior_seen@, target);
                    }
                }
            }
        }
        proof {
            assert forall|t: OwnerKey| #[trigger] planner.tests@.contains(t) implies test_justified(planner.semantic@, planner.reasons@, t) by {
                if before.tests@.contains(t) {
                    lemma_test_justified_kept(before.semantic@, before.reasons@, planner.semantic@, planner.reasons@, t);
                }
            }
        }
        proof {
            lemma_records_direct_grow(
                initial.edits@,
                initial.edits@.len() as int,
                before.semantic@,
                before.reasons@,
                planner.semantic@,
                planner.reasons@,
            );
        }
    }
    proof {
        assert forall|q: OwnerKey| #[trigger] planner.behavior_enqueued@.contains(q) implies behavior_closed_at(
            q,
            planner.tests@,
            planner.reasons@,
            planner.behavior_enqueued@,
            authority.root.package_id,
            derived_value,
            base_evidence,
            authority,
            delta_view,
        ) by {
            assert(planner.behavior@.contains(q));
            let k = choose|k: int| 0 <= k < planner.behavior@.len() && planner.behavior@[k] == q;
            assert(planner.behavior_seen@.contains(planner.behavior@[k]));
        }
    }
    let ghost queued_planner = planner;
    let ghost overlay_before_tests = *overlay;
    if planner.semantic.len() > 0 {
        let ghost before = planner;
        planner.mark_tests(overlay, admission)?;
        proof {
            assert forall|t: OwnerKey| #[trigger] planner.tests@.contains(t) implies test_justified(planner.semantic@, planner.reasons@, t) by {
                if before.tests@.contains(t) {
                    lemma_test_justified_kept(before.semantic@, before.reasons@, planner.semantic@, planner.reasons@, t);
                }
            }
        }
    }
    proof {
        assert forall|owner: OwnerKey| planner.semantic@.contains(owner) && candidate_kind(
            old(overlay).base_authority(),
            old(overlay).delta_view(),
            base_evidence,
            owner,
        ) == Some(OwnerKind::Test) implies #[trigger] planner.tests@.contains(owner) by {
            assert(overlay_before_tests.base_authority() == old(overlay).base_authority());
        }
    }
    let mut witness_reads = planner.ownership.work;
    witness_reads.add(planner.relations.work());
    let reasons = sort_reasons(&planner.reasons);
    let mut work = planner.work;
    work.witness_reads = witness_reads;
    remaining_relations(admission.maximum_relation_edges, initial_read.saturating_add(work.reverse_edges_visited))?;
    let total = match work.summary_owners_examined.checked_add(planner.summary_owners.len() as u64) {
        Some(total) => total,
        None => {
            return Err(impact_resource_error(
                "change_budget_impact_summary_owners",
                "summary-owner observation overflowed",
            ));
        },
    };
    admit_count("change_budget_impact_summary_owners", total, admission.maximum_summary_owners)?;
    work.summary_owners_examined = total;
    proof {
        lemma_records_direct_grow(
            initial.edits@,
            initial.edits@.len() as int,
            planner.semantic@,
            planner.reasons@,
            planner.semantic@,
            reasons@,
        );
        if reasons@.len() > 0 {
            assert(reasons@.contains(reasons@[0]));
        }
    }
    proof {
        lemma_paths_selected_kept(
            planner.reasons@,
            planner.summary_owners@,
            reasons@,
            planner.summary_owners@,
            derived_ownership,
            base_evidence.ownership,
        );
    }
    proof {
        assert forall|t: OwnerKey| #[trigger] planner.tests@.contains(t) implies test_justified(planner.semantic@, reasons@, t) by {
            if !planner.semantic@.contains(t) {
                let reason = choose|reason: ImpactReason| #[trigger] planner.reasons@.contains(reason)
                    && reason.kind == ImpactReasonKind::TestBehavior && reason.source == t;
                assert(reasons@.contains(reason));
            }
        }
    }
    proof {
        assert forall|q: OwnerKey| #[trigger] queued_planner.behavior_enqueued@.contains(q) implies behavior_closed_at(
            q,
            planner.tests@,
            reasons@,
            queued_planner.behavior_enqueued@,
            authority.root.package_id,
            derived_value,
            base_evidence,
            authority,
            delta_view,
        ) by {
            lemma_behavior_closed_kept(
                q,
                queued_planner.tests@,
                queued_planner.reasons@,
                queued_planner.behavior_enqueued@,
                planner.tests@,
                reasons@,
                queued_planner.behavior_enqueued@,
                authority.root.package_id,
                derived_value,
                base_evidence,
                authority,
                delta_view,
            );
        }
        assert(behavior_closed(
            initial.edits@,
            planner.tests@,
            reasons@,
            queued_planner.behavior_enqueued@,
            old(overlay).base_authority().root.package_id,
            derived,
            base_witness.evidence(),
            old(overlay).base_authority(),
            old(overlay).delta_view(),
        ));
    }
    let plan = ImpactPlan {
        structurally_checked: structural,
        semantically_checked: planner.semantic,
        summary_owners: planner.summary_owners,
        compiler_units: planner.compiler_units,
        tests: planner.tests,
        reasons,
        work,
    };
    proof {
        assert(affected_frontier(plan, planner.admitted@, admission.maximum_affected_owners));
        assert(behavior_closed(
            initial.edits@,
            plan.tests@,
            plan.reasons@,
            queued_planner.behavior_enqueued@,
            old(overlay).base_authority().root.package_id,
            derived,
            base_witness.evidence(),
            old(overlay).base_authority(),
            old(overlay).delta_view(),
        ));
        lemma_dependencies_planned_kept(
            canonical.dependencies@,
            canonical.dependencies@.len() as int,
            authority.root.package_id,
            derived_value,
            base_evidence,
            authority,
            delta_view,
            queued_planner.behavior_enqueued@,
            queued_planner.compiler_units@,
            queued_planner.semantic@,
            queued_planner.behavior_enqueued@,
            plan.compiler_units@,
            plan.semantically_checked@,
        );
        assert(dependencies_planned(
            canonical@.dependencies,
            canonical@.dependencies.len() as int,
            old(overlay).base_authority().root.package_id,
            derived,
            base_witness.evidence(),
            old(overlay).base_authority(),
            old(overlay).delta_view(),
            queued_planner.behavior_enqueued@,
            plan.compiler_units@,
            plan.semantically_checked@,
        ));
        assert(behavior_followed(
            initial.edits@,
            canonical@.dependencies,
            plan.tests@,
            plan.reasons@,
            plan.compiler_units@,
            plan.semantically_checked@,
            old(overlay).base_authority().root.package_id,
            derived,
            base_witness.evidence(),
            old(overlay).base_authority(),
            old(overlay).delta_view(),
        ));
    }
    Ok(plan)
}

} // verus!
