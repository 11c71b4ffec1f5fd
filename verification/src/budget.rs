//! Independent deterministic resource budgets and observations for one semantic change.

use crate::base_read::{sat_add, CanonicalReadWork, WitnessReadWork};
use crate::delta::CanonicalDelta;
use crate::derived::DerivedDelta;
use crate::impact::{ImpactPlan, PlannedSummaries, SummaryDelta};
use crate::kernel::OwnerKey;
use crate::diagnostic::{static_message, Diagnostic, DiagnosticClass};
use crate::dimension::BudgetDimension;
use crate::text::{ceiling_message, exceeded_message, overdrawn_message};
use vstd::prelude::*;

verus! {

// Deterministic per-request engine ceilings. Count ceilings bound the named work unit at the
// change boundary; byte ceilings are measured in bytes retained by isolated preparation. They are
// implementation ceilings, not semantic language limits.
pub const MAXIMUM_RELATION_PREFIX_ITEMS: usize = 4_096;
pub const MAXIMUM_TEST_DEPENDENCY_PREFIX_ITEMS: usize = 4_096;
pub const MAXIMUM_VALIDATION_WORK: u64 = 10_000_000;
pub const MAXIMUM_CHANGE_OPERATIONS: u64 = 10_000;
pub const MAXIMUM_CHANGE_PRECONDITIONS: u64 = 10_000;
pub const MAXIMUM_CHANGE_ALLOCATED_IDENTITIES: u64 = 1_000_000;
pub const MAXIMUM_CHANGE_AUTHORED_TYPE_NODES: u64 = 1_000_000;
pub const MAXIMUM_CHANGE_OWNER_EDITS: u64 = 1_000_000;
pub const MAXIMUM_CHANGE_TYPE_EDITS: u64 = 1_000_000;
pub const MAXIMUM_CHANGE_DEPENDENCY_EDITS: u64 = 100_000;
pub const MAXIMUM_CHANGE_RETIREMENT_EDITS: u64 = 1_000_000;
pub const MAXIMUM_CHANGE_CANONICAL_POINT_READS: u64 = 10_000_000;
pub const MAXIMUM_CHANGE_CANONICAL_MAP_PAGES: u64 = 10_000_000;
pub const MAXIMUM_CHANGE_CANONICAL_MAP_ENTRIES: u64 = 10_000_000;
pub const MAXIMUM_CHANGE_CANONICAL_CATALOG_LOOKUPS: u64 = 10_000_000;
pub const MAXIMUM_CHANGE_CANONICAL_OBJECTS: u64 = 10_000_000;
pub const MAXIMUM_CHANGE_CANONICAL_BYTES: u64 = 512 * 1_048_576;
pub const MAXIMUM_CHANGE_CANONICAL_RECORDS: u64 = 10_000_000;
pub const MAXIMUM_CHANGE_CANONICAL_MAP_PAGES_ENCODED: u64 = 1_000_000;
pub const MAXIMUM_CHANGE_CANONICAL_MAP_BYTES_ENCODED: u64 = 512 * 1_048_576;
pub const MAXIMUM_CHANGE_WITNESS_POINT_READS: u64 = 10_000_000;
pub const MAXIMUM_CHANGE_WITNESS_MAP_PAGES: u64 = 10_000_000;
pub const MAXIMUM_CHANGE_WITNESS_MAP_ENTRIES: u64 = 10_000_000;
pub const MAXIMUM_CHANGE_WITNESS_CATALOG_LOOKUPS: u64 = 10_000_000;
pub const MAXIMUM_CHANGE_WITNESS_OBJECTS: u64 = 10_000_000;
pub const MAXIMUM_CHANGE_WITNESS_BYTES: u64 = 512 * 1_048_576;
pub const MAXIMUM_CHANGE_WITNESS_RECORDS: u64 = 10_000_000;
pub const MAXIMUM_CHANGE_AFFECTED_OWNERS: u64 = 1_000_000;
pub const MAXIMUM_CHANGE_SUMMARY_OWNERS: u64 = 1_000_000;
pub const MAXIMUM_CHANGE_SUMMARY_EDITS: u64 = 1_000_000;
pub const MAXIMUM_CHANGE_IMPACT_OWNERSHIP_STEPS: u64 = 10_000_000;
pub const MAXIMUM_CHANGE_BEHAVIOR_OWNERS: u64 = 1_000_000;
pub const MAXIMUM_CHANGE_RELATION_EDGES: u64 = 10_000_000;
pub const MAXIMUM_CHANGE_RELATION_FANOUT: u64 = MAXIMUM_RELATION_PREFIX_ITEMS as u64;
pub const MAXIMUM_CHANGE_VALIDATION_OWNER_RECORDS: u64 = 10_000_000;
pub const MAXIMUM_CHANGE_VALIDATION_OWNERSHIP_ENTRIES: u64 = 10_000_000;
pub const MAXIMUM_CHANGE_VALIDATION_TYPE_OBJECTS: u64 = 10_000_000;
pub const MAXIMUM_CHANGE_VALIDATION_EXPRESSION_STEPS: u64 = MAXIMUM_VALIDATION_WORK;
pub const MAXIMUM_CHANGE_VALIDATION_DIAGNOSTICS: u64 = 100_000;
pub const MAXIMUM_CHANGE_SELECTED_TESTS: u64 = 100_000;
pub const MAXIMUM_CHANGE_TEST_DEPENDENCIES_PER_TEST: u64 = MAXIMUM_TEST_DEPENDENCY_PREFIX_ITEMS as u64;
pub const MAXIMUM_CHANGE_TEST_OWNERSHIP_STEPS: u64 = 10_000_000;
pub const MAXIMUM_CHANGE_TEST_OWNERS_VISITED: u64 = 10_000_000;
pub const MAXIMUM_CHANGE_WITNESS_EDITS: u64 = 10_000_000;
pub const MAXIMUM_CHANGE_WITNESS_MAP_PAGES_ENCODED: u64 = 1_000_000;
pub const MAXIMUM_CHANGE_WITNESS_MAP_BYTES_ENCODED: u64 = 512 * 1_048_576;
pub const MAXIMUM_CHANGE_STAGED_OBJECTS: u64 = 1_000_000;
pub const MAXIMUM_CHANGE_STAGED_BYTES: u64 = 512 * 1_048_576;
pub const MAXIMUM_CHANGE_STAGED_PAGES: u64 = 1_000_000;

/// One admission row: a dimension, the observed (or declared) amount and its maximum.
pub type BudgetRow = (BudgetDimension, u64, u64);

/// The first row, in order, whose amount exceeds its maximum.
pub open spec fn first_excess(rows: Seq<BudgetRow>) -> Option<BudgetDimension>
    decreases rows.len(),
{
    if rows.len() == 0 {
        None
    } else if rows[0].1 > rows[0].2 {
        Some(rows[0].0)
    } else {
        first_excess(rows.drop_first())
    }
}

/// The diagnostic code of the first row with an excess.
pub open spec fn excess_code(rows: Seq<BudgetRow>) -> Option<Seq<char>> {
    match first_excess(rows) {
        Some(d) => Some(d.code_view()),
        None => None,
    }
}

/// The first excess of a concatenation is found in the first part when it has one.
pub proof fn lemma_first_excess_concat(a: Seq<BudgetRow>, b: Seq<BudgetRow>)
    ensures
        first_excess(a + b) == (match first_excess(a) {
            Some(d) => Some(d),
            None => first_excess(b),
        }),
    decreases a.len(),
{
    if a.len() > 0 {
        assert((a + b).drop_first() =~= a.drop_first() + b);
        lemma_first_excess_concat(a.drop_first(), b);
    } else {
        assert(a + b =~= b);
    }
}

/// No row has an excess exactly when `first_excess` finds none.
pub proof fn lemma_first_excess_none(rows: Seq<BudgetRow>)
    ensures
        first_excess(rows) is None <==> forall|i: int| 0 <= i < rows.len() ==> rows[i].1 <= rows[i].2,
    decreases rows.len(),
{
    if rows.len() > 0 {
        lemma_first_excess_none(rows.drop_first());
        if first_excess(rows) is None {
            assert forall|i: int| 0 <= i < rows.len() implies rows[i].1 <= rows[i].2 by {
                if i > 0 {
                    assert(rows[i] == rows.drop_first()[i - 1]);
                }
            }
        } else if rows[0].1 <= rows[0].2 {
            let i = choose|i: int| 0 <= i < rows.drop_first().len() && !(rows.drop_first()[i].1 <= rows.drop_first()[i].2);
            assert(rows[i + 1] == rows.drop_first()[i]);
        }
    }
}

/// The diagnostic code of one budget dimension.
pub fn budget_code(dimension: BudgetDimension) -> (r: &'static str)
    ensures
        r@ == dimension.code_view(),
{
    dimension.code()
}

/// A resource diagnostic with the given code.
pub fn budget_error(code: &str, message: String) -> (r: Diagnostic)
    ensures
        r.class == DiagnosticClass::Resource,
        r.code@ == code@,
{
    Diagnostic::new(DiagnosticClass::Resource, code, message)
}

/// Checks one observation against its declared maximum.
pub fn check_dimension(phase: &str, dimension: BudgetDimension, observed: u64, maximum: u64) -> (r: Result<(), Diagnostic>)
    ensures
        r is Ok <==> observed <= maximum,
        r matches Err(d) ==> d.class == DiagnosticClass::Resource && d.code@ == dimension.code_view(),
{
    if observed > maximum {
        return Err(budget_error(
            budget_code(dimension),
            exceeded_message(phase, observed, dimension.name(), maximum),
        ));
    }
    Ok(())
}

/// Checks one declared maximum against its engine ceiling.
pub fn validate_maximum(dimension: BudgetDimension, declared: u64, implementation_ceiling: u64) -> (r: Result<(), Diagnostic>)
    ensures
        r is Ok <==> declared <= implementation_ceiling,
        r matches Err(d) ==> d.class == DiagnosticClass::Resource && d.code@ == dimension.code_view(),
{
    if declared > implementation_ceiling {
        return Err(budget_error(
            budget_code(dimension),
            ceiling_message(declared, dimension.name(), implementation_ceiling),
        ));
    }
    Ok(())
}

/// What remains of `maximum` after `observed`, or the dimension's diagnostic when nothing can.
pub fn remaining_dimension(phase: &str, dimension: BudgetDimension, observed: u64, maximum: u64) -> (r: Result<u64, Diagnostic>)
    ensures
        r matches Ok(v) ==> observed <= maximum && v == maximum - observed,
        r is Err ==> observed > maximum,
        r matches Err(d) ==> d.class == DiagnosticClass::Resource && d.code@ == dimension.code_view(),
{
    match maximum.checked_sub(observed) {
        Some(remaining) => Ok(remaining),
        None => Err(budget_error(
            budget_code(dimension),
            overdrawn_message(phase, observed, dimension.name(), maximum),
        )),
    }
}

/// Checks observation rows in order and reports the first that exceeds its maximum.
pub fn check_rows(phase: &str, rows: &Vec<BudgetRow>) -> (r: Result<(), Diagnostic>)
    ensures
        r is Ok <==> first_excess(rows@) is None,
        r matches Err(d) ==> d.class == DiagnosticClass::Resource
            && Some(d.code@) == excess_code(rows@),
{
    let mut i: usize = 0;
    assert(rows@.subrange(0, rows@.len() as int) =~= rows@);
    while i < rows.len()
        invariant
            0 <= i <= rows@.len(),
            first_excess(rows@) == first_excess(rows@.subrange(i as int, rows@.len() as int)),
        decreases rows@.len() - i,
    {
        let (dimension, observed, maximum) = rows[i];
        assert(rows@.subrange(i as int, rows@.len() as int).drop_first() =~= rows@.subrange(i + 1, rows@.len() as int));
        check_dimension(phase, dimension, observed, maximum)?;
        i = i + 1;
    }
    assert(rows@.subrange(i as int, rows@.len() as int) =~= Seq::<BudgetRow>::empty());
    Ok(())
}

/// Checks declared maxima in order against their ceilings and reports the first above one.
pub fn validate_rows(rows: &Vec<BudgetRow>) -> (r: Result<(), Diagnostic>)
    ensures
        r is Ok <==> first_excess(rows@) is None,
        r matches Err(d) ==> d.class == DiagnosticClass::Resource
            && Some(d.code@) == excess_code(rows@),
{
    let mut i: usize = 0;
    assert(rows@.subrange(0, rows@.len() as int) =~= rows@);
    while i < rows.len()
        invariant
            0 <= i <= rows@.len(),
            first_excess(rows@) == first_excess(rows@.subrange(i as int, rows@.len() as int)),
        decreases rows@.len() - i,
    {
        let (dimension, declared, ceiling) = rows[i];
        assert(rows@.subrange(i as int, rows@.len() as int).drop_first() =~= rows@.subrange(i + 1, rows@.len() as int));
        validate_maximum(dimension, declared, ceiling)?;
        i = i + 1;
    }
    assert(rows@.subrange(i as int, rows@.len() as int) =~= Seq::<BudgetRow>::empty());
    Ok(())
}

/// A length as a counter, saturating at the largest counter.
pub open spec fn count_spec(value: usize) -> u64 {
    if value > u64::MAX { u64::MAX } else { value as u64 }
}

/// Converts a length to a counter, saturating at the largest counter.
pub fn count(value: usize) -> (r: u64)
    ensures
        r == count_spec(value),
{
    if value as u128 > u64::MAX as u128 {
        u64::MAX
    } else {
        value as u64
    }
}

#[derive(Clone, Copy, Debug, PartialEq, Eq, Structural)]
pub struct AuthoredChangeAdmission {
    /// Authored operations in the normalized request.
    pub maximum_operations: u64,
    /// Exact preconditions evaluated against the pinned base.
    pub maximum_preconditions: u64,
    /// Durable identities allocated from named or anonymous request definitions.
    pub maximum_allocated_identities: u64,
    /// Distinct canonical type objects interned while lowering the request.
    pub maximum_type_nodes: u64,
}

impl Default for AuthoredChangeAdmission {
    fn default() -> (r: Self)
        ensures

            r.maximum_operations == 1_000,
            r.maximum_preconditions == 1_000,
            r.maximum_allocated_identities == 100_000,
            r.maximum_type_nodes == 100_000,
    {
        Self {
            maximum_operations: 1_000,
            maximum_preconditions: 1_000,
            maximum_allocated_identities: 100_000,
            maximum_type_nodes: 100_000,
        }
    }
}

#[derive(Clone, Copy, Debug, PartialEq, Eq, Structural)]
pub struct CanonicalEditAdmission {
    /// Distinct accepted-owner bindings created, replaced, or removed.
    pub maximum_owner_edits: u64,
    /// Distinct absent type objects proposed for insertion.
    pub maximum_type_edits: u64,
    /// Distinct package-dependency bindings created, replaced, or removed.
    pub maximum_dependency_edits: u64,
    /// Distinct retirement bindings created or replaced.
    pub maximum_retirement_edits: u64,
}

impl Default for CanonicalEditAdmission {
    fn default() -> (r: Self)
        ensures

            r.maximum_owner_edits == 100_000,
            r.maximum_type_edits == 100_000,
            r.maximum_dependency_edits == 10_000,
            r.maximum_retirement_edits == 100_000,
    {
        Self {
            maximum_owner_edits: 100_000,
            maximum_type_edits: 100_000,
            maximum_dependency_edits: 10_000,
            maximum_retirement_edits: 100_000,
        }
    }
}

#[derive(Clone, Copy, Debug, PartialEq, Eq, Structural)]
pub struct CanonicalReadAdmission {
    /// Logical point-read requests issued to accepted semantic authority.
    pub maximum_point_reads: u64,
    /// Persistent-map pages decoded for those reads.
    pub maximum_map_pages: u64,
    /// Persistent-map entries visited for those reads.
    pub maximum_map_entries: u64,
    /// Immutable-store catalog probes issued for those reads.
    pub maximum_catalog_lookups: u64,
    /// Immutable objects whose payload bytes were returned.
    pub maximum_objects: u64,
    /// Immutable object payload bytes returned.
    pub maximum_bytes: u64,
    /// Canonical semantic records decoded from returned payloads.
    pub maximum_decoded_records: u64,
}

impl Default for CanonicalReadAdmission {
    fn default() -> (r: Self)
        ensures

            r.maximum_point_reads == 100_000,
            r.maximum_map_pages == 1_000_000,
            r.maximum_map_entries == 1_000_000,
            r.maximum_catalog_lookups == 100_000,
            r.maximum_objects == 100_000,
            r.maximum_bytes == 268_435_456,
            r.maximum_decoded_records == 100_000,
    {
        Self {
            maximum_point_reads: 100_000,
            maximum_map_pages: 1_000_000,
            maximum_map_entries: 1_000_000,
            maximum_catalog_lookups: 100_000,
            maximum_objects: 100_000,
            maximum_bytes: 268_435_456,
            maximum_decoded_records: 100_000,
        }
    }
}

#[derive(Clone, Copy, Debug, PartialEq, Eq, Structural)]
pub struct CanonicalMapUpdateAdmission {
    /// Candidate persistent-map page encodings produced across semantic authority maps.
    pub maximum_pages_encoded: u64,
    /// Bytes produced by those candidate page encodings before page reuse is known.
    pub maximum_bytes_encoded: u64,
}

impl Default for CanonicalMapUpdateAdmission {
    fn default() -> (r: Self)
        ensures

            r.maximum_pages_encoded == 100_000,
            r.maximum_bytes_encoded == 268_435_456,
    {
        Self {
            maximum_pages_encoded: 100_000,
            maximum_bytes_encoded: 268_435_456,
        }
    }
}

#[derive(Clone, Copy, Debug, PartialEq, Eq, Structural)]
pub struct WitnessReadAdmission {
    /// Logical point-read requests issued to accepted validation evidence.
    pub maximum_point_reads: u64,
    /// Persistent-map pages decoded for those reads.
    pub maximum_map_pages: u64,
    /// Persistent-map entries visited for those reads.
    pub maximum_map_entries: u64,
    /// Immutable-store catalog probes issued for those reads.
    pub maximum_catalog_lookups: u64,
    /// Immutable witness objects whose payload bytes were returned.
    pub maximum_objects: u64,
    /// Immutable witness object payload bytes returned.
    pub maximum_bytes: u64,
    /// Witness records decoded from returned payloads.
    pub maximum_decoded_records: u64,
}

impl Default for WitnessReadAdmission {
    fn default() -> (r: Self)
        ensures

            r.maximum_point_reads == 100_000,
            r.maximum_map_pages == 1_000_000,
            r.maximum_map_entries == 1_000_000,
            r.maximum_catalog_lookups == 100_000,
            r.maximum_objects == 100_000,
            r.maximum_bytes == 268_435_456,
            r.maximum_decoded_records == 1_000_000,
    {
        Self {
            maximum_point_reads: 100_000,
            maximum_map_pages: 1_000_000,
            maximum_map_entries: 1_000_000,
            maximum_catalog_lookups: 100_000,
            maximum_objects: 100_000,
            maximum_bytes: 268_435_456,
            maximum_decoded_records: 1_000_000,
        }
    }
}

#[derive(Clone, Copy, Debug, PartialEq, Eq, Structural)]
pub struct ImpactAdmission {
    /// Distinct owners in the combined direct and transitive validation frontier.
    pub maximum_affected_owners: u64,
    /// Owner summaries examined while constructing the impact plan.
    pub maximum_summary_owners: u64,
    /// Candidate summary edits examined while constructing the impact plan.
    pub maximum_summary_edits: u64,
    /// Parent links traversed while resolving semantic ownership.
    pub maximum_ownership_steps: u64,
    /// Behavior owners visited while propagating executable impact.
    pub maximum_behavior_owners: u64,
    /// Relation edges extracted, verified, or traversed across the request.
    pub maximum_relation_edges: u64,
    /// Relation edges admitted for any one queried endpoint.
    pub maximum_relation_fanout: u64,
}

impl Default for ImpactAdmission {
    fn default() -> (r: Self)
        ensures

            r.maximum_affected_owners == 10_000,
            r.maximum_summary_owners == 10_000,
            r.maximum_summary_edits == 10_000,
            r.maximum_ownership_steps == 1_000_000,
            r.maximum_behavior_owners == 10_000,
            r.maximum_relation_edges == 100_000,
            r.maximum_relation_fanout == MAXIMUM_CHANGE_RELATION_FANOUT,
    {
        Self {
            maximum_affected_owners: 10_000,
            maximum_summary_owners: 10_000,
            maximum_summary_edits: 10_000,
            maximum_ownership_steps: 1_000_000,
            maximum_behavior_owners: 10_000,
            maximum_relation_edges: 100_000,
            maximum_relation_fanout: MAXIMUM_CHANGE_RELATION_FANOUT,
        }
    }
}

#[derive(Clone, Copy, Debug, PartialEq, Eq, Structural)]
pub struct ValidationAdmission {
    /// Owner records checked by structural or semantic validation.
    pub maximum_owner_records: u64,
    /// Ownership bindings checked by structural or semantic validation.
    pub maximum_ownership_entries: u64,
    /// Canonical type objects checked by semantic validation.
    pub maximum_type_objects: u64,
    /// Expression nodes or equivalent semantic inference steps executed.
    pub maximum_expression_steps: u64,
    /// Diagnostics retained before validation stops.
    pub maximum_diagnostics: u64,
}

impl Default for ValidationAdmission {
    fn default() -> (r: Self)
        ensures

            r.maximum_owner_records == 100_000,
            r.maximum_ownership_entries == 100_000,
            r.maximum_type_objects == 100_000,
            r.maximum_expression_steps == 1_000_000,
            r.maximum_diagnostics == 1_000,
    {
        Self {
            maximum_owner_records: 100_000,
            maximum_ownership_entries: 100_000,
            maximum_type_objects: 100_000,
            maximum_expression_steps: 1_000_000,
            maximum_diagnostics: 1_000,
        }
    }
}

#[derive(Clone, Copy, Debug, PartialEq, Eq, Structural)]
pub struct TestAdmission {
    /// Graph-owned tests selected by the impact frontier.
    pub maximum_selected: u64,
    /// Exact dependency records admitted for any one selected test.
    pub maximum_dependencies_per_test: u64,
    /// Parent links traversed while locating affected tests.
    pub maximum_ownership_steps: u64,
    /// Candidate owners visited while locating affected tests.
    pub maximum_owners_visited: u64,
}

impl Default for TestAdmission {
    fn default() -> (r: Self)
        ensures

            r.maximum_selected == 10_000,
            r.maximum_dependencies_per_test == MAXIMUM_CHANGE_TEST_DEPENDENCIES_PER_TEST,
            r.maximum_ownership_steps == 1_000_000,
            r.maximum_owners_visited == 1_000_000,
    {
        Self {
            maximum_selected: 10_000,
            maximum_dependencies_per_test: MAXIMUM_CHANGE_TEST_DEPENDENCIES_PER_TEST,
            maximum_ownership_steps: 1_000_000,
            maximum_owners_visited: 1_000_000,
        }
    }
}

#[derive(Clone, Copy, Debug, PartialEq, Eq, Structural)]
pub struct WitnessUpdateAdmission {
    /// Logical witness-map entries inserted, replaced, removed, or confirmed unchanged.
    pub maximum_edits: u64,
    /// Candidate persistent-map page encodings produced across all witness maps.
    pub maximum_pages_encoded: u64,
    /// Bytes produced by those candidate page encodings before page reuse is known.
    pub maximum_bytes_encoded: u64,
}

impl Default for WitnessUpdateAdmission {
    fn default() -> (r: Self)
        ensures

            r.maximum_edits == 1_000_000,
            r.maximum_pages_encoded == 100_000,
            r.maximum_bytes_encoded == 268_435_456,
    {
        Self {
            maximum_edits: 1_000_000,
            maximum_pages_encoded: 100_000,
            maximum_bytes_encoded: 268_435_456,
        }
    }
}

#[derive(Clone, Copy, Debug, PartialEq, Eq, Structural)]
pub struct StagingAdmission {
    /// Newly isolated immutable objects retained for this preparation.
    pub maximum_objects: u64,
    /// Bytes retained by those newly isolated immutable objects.
    pub maximum_bytes: u64,
    /// Newly isolated persistent-map page objects retained for this preparation.
    pub maximum_pages: u64,
}

impl Default for StagingAdmission {
    fn default() -> (r: Self)
        ensures

            r.maximum_objects == 1_000_000,
            r.maximum_bytes == 536_870_912,
            r.maximum_pages == 1_000_000,
    {
        Self {
            maximum_objects: 1_000_000,
            maximum_bytes: 536_870_912,
            maximum_pages: 1_000_000,
        }
    }
}

#[derive(Clone, Copy, Debug, PartialEq, Eq, Structural)]
pub struct CanonicalEditWork {
    pub owner_edits: u64,
    pub type_edits: u64,
    pub dependency_edits: u64,
    pub retirement_edits: u64,
}

impl Default for CanonicalEditWork {
    fn default() -> (r: Self)
        ensures

            r.owner_edits == 0,
            r.type_edits == 0,
            r.dependency_edits == 0,
            r.retirement_edits == 0,
    {
        Self {
            owner_edits: 0,
            type_edits: 0,
            dependency_edits: 0,
            retirement_edits: 0,
        }
    }
}

#[derive(Clone, Copy, Debug, PartialEq, Eq, Structural)]
pub struct CanonicalMapUpdateWork {
    pub pages_encoded: u64,
    pub bytes_encoded: u64,
}

impl Default for CanonicalMapUpdateWork {
    fn default() -> (r: Self)
        ensures

            r.pages_encoded == 0,
            r.bytes_encoded == 0,
    {
        Self {
            pages_encoded: 0,
            bytes_encoded: 0,
        }
    }
}

#[derive(Clone, Copy, Debug, PartialEq, Eq, Structural)]
pub struct ValidationBudgetWork {
    pub owner_records: u64,
    pub ownership_entries: u64,
    pub type_objects: u64,
    pub expression_steps: u64,
    pub diagnostics: u64,
}

impl Default for ValidationBudgetWork {
    fn default() -> (r: Self)
        ensures

            r.owner_records == 0,
            r.ownership_entries == 0,
            r.type_objects == 0,
            r.expression_steps == 0,
            r.diagnostics == 0,
    {
        Self {
            owner_records: 0,
            ownership_entries: 0,
            type_objects: 0,
            expression_steps: 0,
            diagnostics: 0,
        }
    }
}

#[derive(Clone, Copy, Debug, PartialEq, Eq, Structural)]
pub struct TestBudgetWork {
    pub selected: u64,
    pub ownership_steps: u64,
    pub owners_visited: u64,
}

impl Default for TestBudgetWork {
    fn default() -> (r: Self)
        ensures

            r.selected == 0,
            r.ownership_steps == 0,
            r.owners_visited == 0,
    {
        Self {
            selected: 0,
            ownership_steps: 0,
            owners_visited: 0,
        }
    }
}

#[derive(Clone, Copy, Debug, PartialEq, Eq, Structural)]
pub struct WitnessUpdateWork {
    pub edits: u64,
    pub pages_encoded: u64,
    pub bytes_encoded: u64,
}

impl Default for WitnessUpdateWork {
    fn default() -> (r: Self)
        ensures

            r.edits == 0,
            r.pages_encoded == 0,
            r.bytes_encoded == 0,
    {
        Self {
            edits: 0,
            pages_encoded: 0,
            bytes_encoded: 0,
        }
    }
}

#[derive(Clone, Copy, Debug, PartialEq, Eq, Structural)]
pub struct StagingBudgetWork {
    pub objects: u64,
    pub bytes: u64,
    pub pages: u64,
}

impl Default for StagingBudgetWork {
    fn default() -> (r: Self)
        ensures

            r.objects == 0,
            r.bytes == 0,
            r.pages == 0,
    {
        Self {
            objects: 0,
            bytes: 0,
            pages: 0,
        }
    }
}


/// The complete declared budget of one semantic change.
#[derive(Clone, Copy, Debug, PartialEq, Eq, Structural)]
pub struct ChangeBudget {
    pub authored: AuthoredChangeAdmission,
    pub canonical_edits: CanonicalEditAdmission,
    pub canonical_reads: CanonicalReadAdmission,
    pub canonical_map_update: CanonicalMapUpdateAdmission,
    pub witness_reads: WitnessReadAdmission,
    pub impact: ImpactAdmission,
    pub validation: ValidationAdmission,
    pub tests: TestAdmission,
    pub witness_update: WitnessUpdateAdmission,
    pub staging: StagingAdmission,
}

impl Default for ChangeBudget {
    fn default() -> (r: Self)
        ensures
            r == ChangeBudget::spec_default(),
    {
        ChangeBudget {
            authored: AuthoredChangeAdmission::default(),
            canonical_edits: CanonicalEditAdmission::default(),
            canonical_reads: CanonicalReadAdmission::default(),
            canonical_map_update: CanonicalMapUpdateAdmission::default(),
            witness_reads: WitnessReadAdmission::default(),
            impact: ImpactAdmission::default(),
            validation: ValidationAdmission::default(),
            tests: TestAdmission::default(),
            witness_update: WitnessUpdateAdmission::default(),
            staging: StagingAdmission::default(),
        }
    }
}

impl ChangeBudget {
    /// The default budget, field by field.
    pub open spec fn spec_default() -> ChangeBudget {
        ChangeBudget {
            authored: AuthoredChangeAdmission {
            maximum_operations: 1_000,
            maximum_preconditions: 1_000,
            maximum_allocated_identities: 100_000,
            maximum_type_nodes: 100_000,
            },
            canonical_edits: CanonicalEditAdmission {
            maximum_owner_edits: 100_000,
            maximum_type_edits: 100_000,
            maximum_dependency_edits: 10_000,
            maximum_retirement_edits: 100_000,
            },
            canonical_reads: CanonicalReadAdmission {
            maximum_point_reads: 100_000,
            maximum_map_pages: 1_000_000,
            maximum_map_entries: 1_000_000,
            maximum_catalog_lookups: 100_000,
            maximum_objects: 100_000,
            maximum_bytes: 268_435_456,
            maximum_decoded_records: 100_000,
            },
            canonical_map_update: CanonicalMapUpdateAdmission {
            maximum_pages_encoded: 100_000,
            maximum_bytes_encoded: 268_435_456,
            },
            witness_reads: WitnessReadAdmission {
            maximum_point_reads: 100_000,
            maximum_map_pages: 1_000_000,
            maximum_map_entries: 1_000_000,
            maximum_catalog_lookups: 100_000,
            maximum_objects: 100_000,
            maximum_bytes: 268_435_456,
            maximum_decoded_records: 1_000_000,
            },
            impact: ImpactAdmission {
            maximum_affected_owners: 10_000,
            maximum_summary_owners: 10_000,
            maximum_summary_edits: 10_000,
            maximum_ownership_steps: 1_000_000,
            maximum_behavior_owners: 10_000,
            maximum_relation_edges: 100_000,
            maximum_relation_fanout: MAXIMUM_CHANGE_RELATION_FANOUT,
            },
            validation: ValidationAdmission {
            maximum_owner_records: 100_000,
            maximum_ownership_entries: 100_000,
            maximum_type_objects: 100_000,
            maximum_expression_steps: 1_000_000,
            maximum_diagnostics: 1_000,
            },
            tests: TestAdmission {
            maximum_selected: 10_000,
            maximum_dependencies_per_test: MAXIMUM_CHANGE_TEST_DEPENDENCIES_PER_TEST,
            maximum_ownership_steps: 1_000_000,
            maximum_owners_visited: 1_000_000,
            },
            witness_update: WitnessUpdateAdmission {
            maximum_edits: 1_000_000,
            maximum_pages_encoded: 100_000,
            maximum_bytes_encoded: 268_435_456,
            },
            staging: StagingAdmission {
            maximum_objects: 1_000_000,
            maximum_bytes: 536_870_912,
            maximum_pages: 1_000_000,
            },
        }
    }

    /// Whether the operation maximum lies in its admitted range.
    pub open spec fn operations_admissible(self) -> bool {
        0 < self.authored.maximum_operations <= MAXIMUM_CHANGE_OPERATIONS
    }

    /// Every other declared maximum beside its engine ceiling, in diagnostic order.
    pub open spec fn declared_maxima(self) -> Seq<BudgetRow> {
        seq![
            (BudgetDimension::Preconditions, self.authored.maximum_preconditions, MAXIMUM_CHANGE_PRECONDITIONS),
            (BudgetDimension::AllocatedIdentities, self.authored.maximum_allocated_identities, MAXIMUM_CHANGE_ALLOCATED_IDENTITIES),
            (BudgetDimension::AuthoredTypeNodes, self.authored.maximum_type_nodes, MAXIMUM_CHANGE_AUTHORED_TYPE_NODES),
            (BudgetDimension::CanonicalOwnerEdits, self.canonical_edits.maximum_owner_edits, MAXIMUM_CHANGE_OWNER_EDITS),
            (BudgetDimension::CanonicalTypeEdits, self.canonical_edits.maximum_type_edits, MAXIMUM_CHANGE_TYPE_EDITS),
            (BudgetDimension::CanonicalDependencyEdits, self.canonical_edits.maximum_dependency_edits, MAXIMUM_CHANGE_DEPENDENCY_EDITS),
            (BudgetDimension::CanonicalRetirementEdits, self.canonical_edits.maximum_retirement_edits, MAXIMUM_CHANGE_RETIREMENT_EDITS),
            (BudgetDimension::CanonicalPointReads, self.canonical_reads.maximum_point_reads, MAXIMUM_CHANGE_CANONICAL_POINT_READS),
            (BudgetDimension::CanonicalMapPages, self.canonical_reads.maximum_map_pages, MAXIMUM_CHANGE_CANONICAL_MAP_PAGES),
            (BudgetDimension::CanonicalMapEntries, self.canonical_reads.maximum_map_entries, MAXIMUM_CHANGE_CANONICAL_MAP_ENTRIES),
            (BudgetDimension::CanonicalCatalogLookups, self.canonical_reads.maximum_catalog_lookups, MAXIMUM_CHANGE_CANONICAL_CATALOG_LOOKUPS),
            (BudgetDimension::CanonicalObjects, self.canonical_reads.maximum_objects, MAXIMUM_CHANGE_CANONICAL_OBJECTS),
            (BudgetDimension::CanonicalBytes, self.canonical_reads.maximum_bytes, MAXIMUM_CHANGE_CANONICAL_BYTES),
            (BudgetDimension::CanonicalDecodedRecords, self.canonical_reads.maximum_decoded_records, MAXIMUM_CHANGE_CANONICAL_RECORDS),
            (BudgetDimension::CanonicalMapPagesEncoded, self.canonical_map_update.maximum_pages_encoded, MAXIMUM_CHANGE_CANONICAL_MAP_PAGES_ENCODED),
            (BudgetDimension::CanonicalMapBytesEncoded, self.canonical_map_update.maximum_bytes_encoded, MAXIMUM_CHANGE_CANONICAL_MAP_BYTES_ENCODED),
            (BudgetDimension::WitnessPointReads, self.witness_reads.maximum_point_reads, MAXIMUM_CHANGE_WITNESS_POINT_READS),
            (BudgetDimension::WitnessMapPages, self.witness_reads.maximum_map_pages, MAXIMUM_CHANGE_WITNESS_MAP_PAGES),
            (BudgetDimension::WitnessMapEntries, self.witness_reads.maximum_map_entries, MAXIMUM_CHANGE_WITNESS_MAP_ENTRIES),
            (BudgetDimension::WitnessCatalogLookups, self.witness_reads.maximum_catalog_lookups, MAXIMUM_CHANGE_WITNESS_CATALOG_LOOKUPS),
            (BudgetDimension::WitnessObjects, self.witness_reads.maximum_objects, MAXIMUM_CHANGE_WITNESS_OBJECTS),
            (BudgetDimension::WitnessBytes, self.witness_reads.maximum_bytes, MAXIMUM_CHANGE_WITNESS_BYTES),
            (BudgetDimension::WitnessDecodedRecords, self.witness_reads.maximum_decoded_records, MAXIMUM_CHANGE_WITNESS_RECORDS),
            (BudgetDimension::AffectedFrontierOwners, self.impact.maximum_affected_owners, MAXIMUM_CHANGE_AFFECTED_OWNERS),
            (BudgetDimension::ImpactSummaryOwners, self.impact.maximum_summary_owners, MAXIMUM_CHANGE_SUMMARY_OWNERS),
            (BudgetDimension::ImpactSummaryEdits, self.impact.maximum_summary_edits, MAXIMUM_CHANGE_SUMMARY_EDITS),
            (BudgetDimension::ImpactOwnershipSteps, self.impact.maximum_ownership_steps, MAXIMUM_CHANGE_IMPACT_OWNERSHIP_STEPS),
            (BudgetDimension::ImpactBehaviorOwners, self.impact.maximum_behavior_owners, MAXIMUM_CHANGE_BEHAVIOR_OWNERS),
            (BudgetDimension::RelationEdges, self.impact.maximum_relation_edges, MAXIMUM_CHANGE_RELATION_EDGES),
            (BudgetDimension::RelationFanout, self.impact.maximum_relation_fanout, MAXIMUM_CHANGE_RELATION_FANOUT),
            (BudgetDimension::ValidationOwnerRecords, self.validation.maximum_owner_records, MAXIMUM_CHANGE_VALIDATION_OWNER_RECORDS),
            (BudgetDimension::ValidationOwnershipEntries, self.validation.maximum_ownership_entries, MAXIMUM_CHANGE_VALIDATION_OWNERSHIP_ENTRIES),
            (BudgetDimension::ValidationTypeObjects, self.validation.maximum_type_objects, MAXIMUM_CHANGE_VALIDATION_TYPE_OBJECTS),
            (BudgetDimension::ValidationExpressionSteps, self.validation.maximum_expression_steps, MAXIMUM_CHANGE_VALIDATION_EXPRESSION_STEPS),
            (BudgetDimension::ValidationDiagnostics, self.validation.maximum_diagnostics, MAXIMUM_CHANGE_VALIDATION_DIAGNOSTICS),
            (BudgetDimension::TestsSelected, self.tests.maximum_selected, MAXIMUM_CHANGE_SELECTED_TESTS),
            (BudgetDimension::TestDependenciesPerTest, self.tests.maximum_dependencies_per_test, MAXIMUM_CHANGE_TEST_DEPENDENCIES_PER_TEST),
            (BudgetDimension::TestOwnershipSteps, self.tests.maximum_ownership_steps, MAXIMUM_CHANGE_TEST_OWNERSHIP_STEPS),
            (BudgetDimension::TestOwnersVisited, self.tests.maximum_owners_visited, MAXIMUM_CHANGE_TEST_OWNERS_VISITED),
            (BudgetDimension::WitnessEdits, self.witness_update.maximum_edits, MAXIMUM_CHANGE_WITNESS_EDITS),
            (BudgetDimension::WitnessMapPagesEncoded, self.witness_update.maximum_pages_encoded, MAXIMUM_CHANGE_WITNESS_MAP_PAGES_ENCODED),
            (BudgetDimension::WitnessMapBytesEncoded, self.witness_update.maximum_bytes_encoded, MAXIMUM_CHANGE_WITNESS_MAP_BYTES_ENCODED),
            (BudgetDimension::StagedObjects, self.staging.maximum_objects, MAXIMUM_CHANGE_STAGED_OBJECTS),
            (BudgetDimension::StagedBytes, self.staging.maximum_bytes, MAXIMUM_CHANGE_STAGED_BYTES),
            (BudgetDimension::StagedPages, self.staging.maximum_pages, MAXIMUM_CHANGE_STAGED_PAGES)
        ]
    }

    /// Whether every declared maximum lies within its engine ceiling.
    pub open spec fn is_valid(self) -> bool {
        self.operations_admissible() && first_excess(self.declared_maxima()) is None
    }

    /// The code that `validate` reports for an invalid budget.
    pub open spec fn validation_code(self) -> Seq<char> {
        if !self.operations_admissible() {
            "change_budget_invalid_operations"@
        } else {
            first_excess(self.declared_maxima()).unwrap().code_view()
        }
    }

}
impl ChangeBudget {
    /// Accepts a budget whose every declared maximum lies within its engine ceiling.
    pub fn validate(self) -> (r: Result<Self, Diagnostic>)
        ensures
            r matches Ok(b) ==> self.is_valid() && b == self,
            r is Err ==> !self.is_valid(),
            r matches Err(d) ==> d.class == DiagnosticClass::Resource && d.code@ == self.validation_code(),
    {
        if self.authored.maximum_operations == 0
            || self.authored.maximum_operations > MAXIMUM_CHANGE_OPERATIONS
        {
            return Err(budget_error(
                "change_budget_invalid_operations",
                static_message("operation maximum must be 1 through 10000 operations"),
            ));
        }
        let rows: Vec<BudgetRow> = vec![
            (BudgetDimension::Preconditions, self.authored.maximum_preconditions, MAXIMUM_CHANGE_PRECONDITIONS),
            (BudgetDimension::AllocatedIdentities, self.authored.maximum_allocated_identities, MAXIMUM_CHANGE_ALLOCATED_IDENTITIES),
            (BudgetDimension::AuthoredTypeNodes, self.authored.maximum_type_nodes, MAXIMUM_CHANGE_AUTHORED_TYPE_NODES),
            (BudgetDimension::CanonicalOwnerEdits, self.canonical_edits.maximum_owner_edits, MAXIMUM_CHANGE_OWNER_EDITS),
            (BudgetDimension::CanonicalTypeEdits, self.canonical_edits.maximum_type_edits, MAXIMUM_CHANGE_TYPE_EDITS),
            (BudgetDimension::CanonicalDependencyEdits, self.canonical_edits.maximum_dependency_edits, MAXIMUM_CHANGE_DEPENDENCY_EDITS),
            (BudgetDimension::CanonicalRetirementEdits, self.canonical_edits.maximum_retirement_edits, MAXIMUM_CHANGE_RETIREMENT_EDITS),
            (BudgetDimension::CanonicalPointReads, self.canonical_reads.maximum_point_reads, MAXIMUM_CHANGE_CANONICAL_POINT_READS),
            (BudgetDimension::CanonicalMapPages, self.canonical_reads.maximum_map_pages, MAXIMUM_CHANGE_CANONICAL_MAP_PAGES),
            (BudgetDimension::CanonicalMapEntries, self.canonical_reads.maximum_map_entries, MAXIMUM_CHANGE_CANONICAL_MAP_ENTRIES),
            (BudgetDimension::CanonicalCatalogLookups, self.canonical_reads.maximum_catalog_lookups, MAXIMUM_CHANGE_CANONICAL_CATALOG_LOOKUPS),
            (BudgetDimension::CanonicalObjects, self.canonical_reads.maximum_objects, MAXIMUM_CHANGE_CANONICAL_OBJECTS),
            (BudgetDimension::CanonicalBytes, self.canonical_reads.maximum_bytes, MAXIMUM_CHANGE_CANONICAL_BYTES),
            (BudgetDimension::CanonicalDecodedRecords, self.canonical_reads.maximum_decoded_records, MAXIMUM_CHANGE_CANONICAL_RECORDS),
            (BudgetDimension::CanonicalMapPagesEncoded, self.canonical_map_update.maximum_pages_encoded, MAXIMUM_CHANGE_CANONICAL_MAP_PAGES_ENCODED),
            (BudgetDimension::CanonicalMapBytesEncoded, self.canonical_map_update.maximum_bytes_encoded, MAXIMUM_CHANGE_CANONICAL_MAP_BYTES_ENCODED),
            (BudgetDimension::WitnessPointReads, self.witness_reads.maximum_point_reads, MAXIMUM_CHANGE_WITNESS_POINT_READS),
            (BudgetDimension::WitnessMapPages, self.witness_reads.maximum_map_pages, MAXIMUM_CHANGE_WITNESS_MAP_PAGES),
            (BudgetDimension::WitnessMapEntries, self.witness_reads.maximum_map_entries, MAXIMUM_CHANGE_WITNESS_MAP_ENTRIES),
            (BudgetDimension::WitnessCatalogLookups, self.witness_reads.maximum_catalog_lookups, MAXIMUM_CHANGE_WITNESS_CATALOG_LOOKUPS),
            (BudgetDimension::WitnessObjects, self.witness_reads.maximum_objects, MAXIMUM_CHANGE_WITNESS_OBJECTS),
            (BudgetDimension::WitnessBytes, self.witness_reads.maximum_bytes, MAXIMUM_CHANGE_WITNESS_BYTES),
            (BudgetDimension::WitnessDecodedRecords, self.witness_reads.maximum_decoded_records, MAXIMUM_CHANGE_WITNESS_RECORDS),
            (BudgetDimension::AffectedFrontierOwners, self.impact.maximum_affected_owners, MAXIMUM_CHANGE_AFFECTED_OWNERS),
            (BudgetDimension::ImpactSummaryOwners, self.impact.maximum_summary_owners, MAXIMUM_CHANGE_SUMMARY_OWNERS),
            (BudgetDimension::ImpactSummaryEdits, self.impact.maximum_summary_edits, MAXIMUM_CHANGE_SUMMARY_EDITS),
            (BudgetDimension::ImpactOwnershipSteps, self.impact.maximum_ownership_steps, MAXIMUM_CHANGE_IMPACT_OWNERSHIP_STEPS),
            (BudgetDimension::ImpactBehaviorOwners, self.impact.maximum_behavior_owners, MAXIMUM_CHANGE_BEHAVIOR_OWNERS),
            (BudgetDimension::RelationEdges, self.impact.maximum_relation_edges, MAXIMUM_CHANGE_RELATION_EDGES),
            (BudgetDimension::RelationFanout, self.impact.maximum_relation_fanout, MAXIMUM_CHANGE_RELATION_FANOUT),
            (BudgetDimension::ValidationOwnerRecords, self.validation.maximum_owner_records, MAXIMUM_CHANGE_VALIDATION_OWNER_RECORDS),
            (BudgetDimension::ValidationOwnershipEntries, self.validation.maximum_ownership_entries, MAXIMUM_CHANGE_VALIDATION_OWNERSHIP_ENTRIES),
            (BudgetDimension::ValidationTypeObjects, self.validation.maximum_type_objects, MAXIMUM_CHANGE_VALIDATION_TYPE_OBJECTS),
            (BudgetDimension::ValidationExpressionSteps, self.validation.maximum_expression_steps, MAXIMUM_CHANGE_VALIDATION_EXPRESSION_STEPS),
            (BudgetDimension::ValidationDiagnostics, self.validation.maximum_diagnostics, MAXIMUM_CHANGE_VALIDATION_DIAGNOSTICS),
            (BudgetDimension::TestsSelected, self.tests.maximum_selected, MAXIMUM_CHANGE_SELECTED_TESTS),
            (BudgetDimension::TestDependenciesPerTest, self.tests.maximum_dependencies_per_test, MAXIMUM_CHANGE_TEST_DEPENDENCIES_PER_TEST),
            (BudgetDimension::TestOwnershipSteps, self.tests.maximum_ownership_steps, MAXIMUM_CHANGE_TEST_OWNERSHIP_STEPS),
            (BudgetDimension::TestOwnersVisited, self.tests.maximum_owners_visited, MAXIMUM_CHANGE_TEST_OWNERS_VISITED),
            (BudgetDimension::WitnessEdits, self.witness_update.maximum_edits, MAXIMUM_CHANGE_WITNESS_EDITS),
            (BudgetDimension::WitnessMapPagesEncoded, self.witness_update.maximum_pages_encoded, MAXIMUM_CHANGE_WITNESS_MAP_PAGES_ENCODED),
            (BudgetDimension::WitnessMapBytesEncoded, self.witness_update.maximum_bytes_encoded, MAXIMUM_CHANGE_WITNESS_MAP_BYTES_ENCODED),
            (BudgetDimension::StagedObjects, self.staging.maximum_objects, MAXIMUM_CHANGE_STAGED_OBJECTS),
            (BudgetDimension::StagedBytes, self.staging.maximum_bytes, MAXIMUM_CHANGE_STAGED_BYTES),
            (BudgetDimension::StagedPages, self.staging.maximum_pages, MAXIMUM_CHANGE_STAGED_PAGES)
        ];
        assert(rows@ =~= self.declared_maxima());
        validate_rows(&rows)?;
        Ok(self)
    }
}

impl CanonicalReadAdmission {
    /// The admission that bounds nothing.
    pub fn unbounded() -> (r: Self)
        ensures
            r == CanonicalReadAdmission::spec_unbounded(),
    {
        CanonicalReadAdmission {
            maximum_point_reads: u64::MAX,
            maximum_map_pages: u64::MAX,
            maximum_map_entries: u64::MAX,
            maximum_catalog_lookups: u64::MAX,
            maximum_objects: u64::MAX,
            maximum_bytes: u64::MAX,
            maximum_decoded_records: u64::MAX,
        }
    }

    pub open spec fn spec_unbounded() -> CanonicalReadAdmission {
        CanonicalReadAdmission {
            maximum_point_reads: u64::MAX,
            maximum_map_pages: u64::MAX,
            maximum_map_entries: u64::MAX,
            maximum_catalog_lookups: u64::MAX,
            maximum_objects: u64::MAX,
            maximum_bytes: u64::MAX,
            maximum_decoded_records: u64::MAX,
        }
    }

    /// Each observed counter beside its maximum, in diagnostic order.
    pub open spec fn rows(self, work: CanonicalReadWork) -> Seq<BudgetRow> {
        seq![
            (BudgetDimension::CanonicalPointReads, work.point_reads, self.maximum_point_reads),
            (BudgetDimension::CanonicalMapPages, work.map_pages_read, self.maximum_map_pages),
            (BudgetDimension::CanonicalMapEntries, work.map_entries_visited, self.maximum_map_entries),
            (BudgetDimension::CanonicalCatalogLookups, work.catalog_lookups, self.maximum_catalog_lookups),
            (BudgetDimension::CanonicalObjects, work.objects_read, self.maximum_objects),
            (BudgetDimension::CanonicalBytes, work.bytes_read, self.maximum_bytes),
            (BudgetDimension::CanonicalDecodedRecords, work.canonical_records_decoded, self.maximum_decoded_records)
        ]
    }

    /// Whether `work` fits within this admission.
    pub open spec fn admits(self, work: CanonicalReadWork) -> bool {
        first_excess(self.rows(work)) is None
    }

    /// What remains of this admission after `work`, field by field.
    pub open spec fn minus(self, work: CanonicalReadWork) -> CanonicalReadAdmission {
        CanonicalReadAdmission {
            maximum_point_reads: (self.maximum_point_reads - work.point_reads) as u64,
            maximum_map_pages: (self.maximum_map_pages - work.map_pages_read) as u64,
            maximum_map_entries: (self.maximum_map_entries - work.map_entries_visited) as u64,
            maximum_catalog_lookups: (self.maximum_catalog_lookups - work.catalog_lookups) as u64,
            maximum_objects: (self.maximum_objects - work.objects_read) as u64,
            maximum_bytes: (self.maximum_bytes - work.bytes_read) as u64,
            maximum_decoded_records: (self.maximum_decoded_records - work.canonical_records_decoded) as u64,
        }
    }

    /// The unbounded admission admits every observation.
    pub proof fn lemma_unbounded_admits(work: CanonicalReadWork)
        ensures
            CanonicalReadAdmission::spec_unbounded().admits(work),
    {
        let rows = CanonicalReadAdmission::spec_unbounded().rows(work);
        assert forall|i: int| 0 <= i < rows.len() implies rows[i].1 <= rows[i].2 by {}
        lemma_first_excess_none(rows);
    }

    /// Checks that `work` fits within this admission.
    pub fn check_work(self, work: CanonicalReadWork, phase: &str) -> (r: Result<(), Diagnostic>)
        ensures
            r is Ok <==> self.admits(work),
            r matches Err(d) ==> d.class == DiagnosticClass::Resource
                && Some(d.code@) == excess_code(self.rows(work)),
    {
        let rows: Vec<BudgetRow> = vec![
            (BudgetDimension::CanonicalPointReads, work.point_reads, self.maximum_point_reads),
            (BudgetDimension::CanonicalMapPages, work.map_pages_read, self.maximum_map_pages),
            (BudgetDimension::CanonicalMapEntries, work.map_entries_visited, self.maximum_map_entries),
            (BudgetDimension::CanonicalCatalogLookups, work.catalog_lookups, self.maximum_catalog_lookups),
            (BudgetDimension::CanonicalObjects, work.objects_read, self.maximum_objects),
            (BudgetDimension::CanonicalBytes, work.bytes_read, self.maximum_bytes),
            (BudgetDimension::CanonicalDecodedRecords, work.canonical_records_decoded, self.maximum_decoded_records)
        ];
        assert(rows@ =~= self.rows(work));
        check_rows(phase, &rows)
    }

    /// What remains of this admission after `work`, or the first exhausted dimension.
    pub fn remaining_after(self, work: CanonicalReadWork, phase: &str) -> (r: Result<Self, Diagnostic>)
        ensures
            r is Ok <==> self.admits(work),
            r matches Ok(rest) ==> rest == self.minus(work),
            r matches Err(d) ==> d.class == DiagnosticClass::Resource
                && Some(d.code@) == excess_code(self.rows(work)),
    {
        self.check_work(work, phase)?;
        proof {
            lemma_first_excess_none(self.rows(work));
            assert(self.rows(work)[0].1 <= self.rows(work)[0].2);
            assert(self.rows(work)[1].1 <= self.rows(work)[1].2);
            assert(self.rows(work)[2].1 <= self.rows(work)[2].2);
            assert(self.rows(work)[3].1 <= self.rows(work)[3].2);
            assert(self.rows(work)[4].1 <= self.rows(work)[4].2);
            assert(self.rows(work)[5].1 <= self.rows(work)[5].2);
            assert(self.rows(work)[6].1 <= self.rows(work)[6].2);
        }
        let maximum_point_reads = self.maximum_point_reads - work.point_reads;
        let maximum_map_pages = self.maximum_map_pages - work.map_pages_read;
        let maximum_map_entries = self.maximum_map_entries - work.map_entries_visited;
        let maximum_catalog_lookups = self.maximum_catalog_lookups - work.catalog_lookups;
        let maximum_objects = self.maximum_objects - work.objects_read;
        let maximum_bytes = self.maximum_bytes - work.bytes_read;
        let maximum_decoded_records = self.maximum_decoded_records - work.canonical_records_decoded;
        Ok(CanonicalReadAdmission {
            maximum_point_reads, maximum_map_pages, maximum_map_entries, maximum_catalog_lookups, maximum_objects, maximum_bytes, maximum_decoded_records
        })
    }
}

impl WitnessReadAdmission {
    /// The admission that bounds nothing.
    pub fn unbounded() -> (r: Self)
        ensures
            r == WitnessReadAdmission::spec_unbounded(),
    {
        WitnessReadAdmission {
            maximum_point_reads: u64::MAX,
            maximum_map_pages: u64::MAX,
            maximum_map_entries: u64::MAX,
            maximum_catalog_lookups: u64::MAX,
            maximum_objects: u64::MAX,
            maximum_bytes: u64::MAX,
            maximum_decoded_records: u64::MAX,
        }
    }

    pub open spec fn spec_unbounded() -> WitnessReadAdmission {
        WitnessReadAdmission {
            maximum_point_reads: u64::MAX,
            maximum_map_pages: u64::MAX,
            maximum_map_entries: u64::MAX,
            maximum_catalog_lookups: u64::MAX,
            maximum_objects: u64::MAX,
            maximum_bytes: u64::MAX,
            maximum_decoded_records: u64::MAX,
        }
    }

    /// Each observed counter beside its maximum, in diagnostic order.
    pub open spec fn rows(self, work: WitnessReadWork) -> Seq<BudgetRow> {
        seq![
            (BudgetDimension::WitnessPointReads, work.point_reads, self.maximum_point_reads),
            (BudgetDimension::WitnessMapPages, work.map_pages_read, self.maximum_map_pages),
            (BudgetDimension::WitnessMapEntries, work.map_entries_visited, self.maximum_map_entries),
            (BudgetDimension::WitnessCatalogLookups, work.catalog_lookups, self.maximum_catalog_lookups),
            (BudgetDimension::WitnessObjects, work.objects_read, self.maximum_objects),
            (BudgetDimension::WitnessBytes, work.bytes_read, self.maximum_bytes),
            (BudgetDimension::WitnessDecodedRecords, work.witness_records_decoded, self.maximum_decoded_records)
        ]
    }

    /// Whether `work` fits within this admission.
    pub open spec fn admits(self, work: WitnessReadWork) -> bool {
        first_excess(self.rows(work)) is None
    }

    /// What remains of this admission after `work`, field by field.
    pub open spec fn minus(self, work: WitnessReadWork) -> WitnessReadAdmission {
        WitnessReadAdmission {
            maximum_point_reads: (self.maximum_point_reads - work.point_reads) as u64,
            maximum_map_pages: (self.maximum_map_pages - work.map_pages_read) as u64,
            maximum_map_entries: (self.maximum_map_entries - work.map_entries_visited) as u64,
            maximum_catalog_lookups: (self.maximum_catalog_lookups - work.catalog_lookups) as u64,
            maximum_objects: (self.maximum_objects - work.objects_read) as u64,
            maximum_bytes: (self.maximum_bytes - work.bytes_read) as u64,
            maximum_decoded_records: (self.maximum_decoded_records - work.witness_records_decoded) as u64,
        }
    }

    /// The unbounded admission admits every observation.
    pub proof fn lemma_unbounded_admits(work: WitnessReadWork)
        ensures
            WitnessReadAdmission::spec_unbounded().admits(work),
    {
        let rows = WitnessReadAdmission::spec_unbounded().rows(work);
        assert forall|i: int| 0 <= i < rows.len() implies rows[i].1 <= rows[i].2 by {}
        lemma_first_excess_none(rows);
    }

    /// Checks that `work` fits within this admission.
    pub fn check_work(self, work: WitnessReadWork, phase: &str) -> (r: Result<(), Diagnostic>)
        ensures
            r is Ok <==> self.admits(work),
            r matches Err(d) ==> d.class == DiagnosticClass::Resource
                && Some(d.code@) == excess_code(self.rows(work)),
    {
        let rows: Vec<BudgetRow> = vec![
            (BudgetDimension::WitnessPointReads, work.point_reads, self.maximum_point_reads),
            (BudgetDimension::WitnessMapPages, work.map_pages_read, self.maximum_map_pages),
            (BudgetDimension::WitnessMapEntries, work.map_entries_visited, self.maximum_map_entries),
            (BudgetDimension::WitnessCatalogLookups, work.catalog_lookups, self.maximum_catalog_lookups),
            (BudgetDimension::WitnessObjects, work.objects_read, self.maximum_objects),
            (BudgetDimension::WitnessBytes, work.bytes_read, self.maximum_bytes),
            (BudgetDimension::WitnessDecodedRecords, work.witness_records_decoded, self.maximum_decoded_records)
        ];
        assert(rows@ =~= self.rows(work));
        check_rows(phase, &rows)
    }

    /// What remains of this admission after `work`, or the first exhausted dimension.
    pub fn remaining_after(self, work: WitnessReadWork, phase: &str) -> (r: Result<Self, Diagnostic>)
        ensures
            r is Ok <==> self.admits(work),
            r matches Ok(rest) ==> rest == self.minus(work),
            r matches Err(d) ==> d.class == DiagnosticClass::Resource
                && Some(d.code@) == excess_code(self.rows(work)),
    {
        self.check_work(work, phase)?;
        proof {
            lemma_first_excess_none(self.rows(work));
            assert(self.rows(work)[0].1 <= self.rows(work)[0].2);
            assert(self.rows(work)[1].1 <= self.rows(work)[1].2);
            assert(self.rows(work)[2].1 <= self.rows(work)[2].2);
            assert(self.rows(work)[3].1 <= self.rows(work)[3].2);
            assert(self.rows(work)[4].1 <= self.rows(work)[4].2);
            assert(self.rows(work)[5].1 <= self.rows(work)[5].2);
            assert(self.rows(work)[6].1 <= self.rows(work)[6].2);
        }
        let maximum_point_reads = self.maximum_point_reads - work.point_reads;
        let maximum_map_pages = self.maximum_map_pages - work.map_pages_read;
        let maximum_map_entries = self.maximum_map_entries - work.map_entries_visited;
        let maximum_catalog_lookups = self.maximum_catalog_lookups - work.catalog_lookups;
        let maximum_objects = self.maximum_objects - work.objects_read;
        let maximum_bytes = self.maximum_bytes - work.bytes_read;
        let maximum_decoded_records = self.maximum_decoded_records - work.witness_records_decoded;
        Ok(WitnessReadAdmission {
            maximum_point_reads, maximum_map_pages, maximum_map_entries, maximum_catalog_lookups, maximum_objects, maximum_bytes, maximum_decoded_records
        })
    }
}

/// Every observed amount of one semantic change.
#[derive(Clone, Copy, Debug, PartialEq, Eq, Structural)]
pub struct ChangeBudgetWork {
    pub authored_operations: u64,
    pub preconditions_checked: u64,
    pub allocated_identities: u64,
    pub authored_type_nodes: u64,
    pub canonical_edits: CanonicalEditWork,
    pub canonical_reads: CanonicalReadWork,
    pub canonical_map_update: CanonicalMapUpdateWork,
    pub witness_reads: WitnessReadWork,
    pub affected_frontier_owners: u64,
    pub impact_summary_owners: u64,
    pub impact_summary_edits: u64,
    pub impact_ownership_steps: u64,
    pub impact_behavior_owners: u64,
    pub relation_edges: u64,
    pub validation: ValidationBudgetWork,
    pub tests: TestBudgetWork,
    pub witness_update: WitnessUpdateWork,
    pub staging: StagingBudgetWork,
}

impl Default for ChangeBudgetWork {
    fn default() -> (r: Self)
        ensures
            r == ChangeBudgetWork::zero(),
    {
        ChangeBudgetWork {
            authored_operations: 0,
            preconditions_checked: 0,
            allocated_identities: 0,
            authored_type_nodes: 0,
            canonical_edits: CanonicalEditWork::default(),
            canonical_reads: CanonicalReadWork::default(),
            canonical_map_update: CanonicalMapUpdateWork::default(),
            witness_reads: WitnessReadWork::default(),
            affected_frontier_owners: 0,
            impact_summary_owners: 0,
            impact_summary_edits: 0,
            impact_ownership_steps: 0,
            impact_behavior_owners: 0,
            relation_edges: 0,
            validation: ValidationBudgetWork::default(),
            tests: TestBudgetWork::default(),
            witness_update: WitnessUpdateWork::default(),
            staging: StagingBudgetWork::default(),
        }
    }
}

impl ChangeBudgetWork {
    /// The observation of no work at all.
    pub open spec fn zero() -> ChangeBudgetWork {
        ChangeBudgetWork {
            authored_operations: 0,
            preconditions_checked: 0,
            allocated_identities: 0,
            authored_type_nodes: 0,
            canonical_edits: CanonicalEditWork { owner_edits: 0, type_edits: 0, dependency_edits: 0, retirement_edits: 0 },
            canonical_reads: CanonicalReadWork::zero(),
            canonical_map_update: CanonicalMapUpdateWork { pages_encoded: 0, bytes_encoded: 0 },
            witness_reads: WitnessReadWork::zero(),
            affected_frontier_owners: 0,
            impact_summary_owners: 0,
            impact_summary_edits: 0,
            impact_ownership_steps: 0,
            impact_behavior_owners: 0,
            relation_edges: 0,
            validation: ValidationBudgetWork { owner_records: 0, ownership_entries: 0, type_objects: 0, expression_steps: 0, diagnostics: 0 },
            tests: TestBudgetWork { selected: 0, ownership_steps: 0, owners_visited: 0 },
            witness_update: WitnessUpdateWork { edits: 0, pages_encoded: 0, bytes_encoded: 0 },
            staging: StagingBudgetWork { objects: 0, bytes: 0, pages: 0 },
        }
    }

    /// The observations of authored normalization: request counts, base reads and relations.
    pub fn authored(
        operations: usize,
        preconditions: usize,
        allocated_identities: usize,
        authored_type_nodes: usize,
        canonical_reads: CanonicalReadWork,
        witness_reads: WitnessReadWork,
        relation_edges: u64,
    ) -> (r: Self)
        ensures
            r == (ChangeBudgetWork {
                authored_operations: count_spec(operations),
                preconditions_checked: count_spec(preconditions),
                allocated_identities: count_spec(allocated_identities),
                authored_type_nodes: count_spec(authored_type_nodes),
                canonical_reads,
                witness_reads,
                relation_edges,
                ..ChangeBudgetWork::zero()
            }),
    {
        let mut work = ChangeBudgetWork::default();
        work.authored_operations = count(operations);
        work.preconditions_checked = count(preconditions);
        work.allocated_identities = count(allocated_identities);
        work.authored_type_nodes = count(authored_type_nodes);
        work.canonical_reads = canonical_reads;
        work.witness_reads = witness_reads;
        work.relation_edges = relation_edges;
        work
    }
}

/// Limits handed to an immutable-object store for one admitted read.
#[derive(Clone, Copy, Debug, PartialEq, Eq, Structural)]
pub struct StoreReadLimits {
    pub maximum_catalog_lookups: u64,
    pub maximum_objects: u64,
    pub maximum_bytes: u64,
}

/// Limits handed to a persistent map for one admitted read or update.
#[derive(Clone, Copy, Debug, PartialEq, Eq, Structural)]
pub struct MapAdmission {
    pub maximum_pages_read: u64,
    pub maximum_bytes_read: u64,
    pub maximum_entries_visited: u64,
    pub maximum_pages_encoded: u64,
    pub maximum_bytes_encoded: u64,
}

/// Limits handed to the validation-witness maps for one update.
#[derive(Clone, Copy, Debug, PartialEq, Eq, Structural)]
pub struct WitnessMapAdmission {
    pub map: MapAdmission,
    pub maximum_catalog_lookups: u64,
    pub maximum_objects: u64,
    pub maximum_bytes: u64,
}

/// No row of a run exceeds its maximum exactly when no first excess is found.
pub proof fn lemma_first_excess_none_iff(rows: Seq<BudgetRow>)
    ensures
        first_excess(rows) is None <==> forall|i: int| 0 <= i < rows.len() ==> (#[trigger] rows[i]).1 <= rows[i].2,
    decreases rows.len(),
{
    if rows.len() > 0 {
        lemma_first_excess_none_iff(rows.drop_first());
        assert forall|i: int| 0 < i < rows.len() implies #[trigger] rows[i] == rows.drop_first()[i - 1] by {}
        if first_excess(rows) is None {
            assert forall|i: int| 0 <= i < rows.len() implies (#[trigger] rows[i]).1 <= rows[i].2 by {
                if i > 0 {
                    assert(rows.drop_first()[i - 1] == rows[i]);
                }
            }
        } else if forall|i: int| 0 <= i < rows.len() ==> (#[trigger] rows[i]).1 <= rows[i].2 {
            assert(rows[0].1 <= rows[0].2);
            assert forall|i: int| 0 <= i < rows.drop_first().len() implies (#[trigger] rows.drop_first()[i]).1 <= rows.drop_first()[i].2 by {
                assert(rows.drop_first()[i] == rows[i + 1]);
            }
        }
    }
}

/// A change budget is valid exactly when its operation maximum is 1 through the operation
/// ceiling and each other declared maximum lies within its own engine ceiling.
pub proof fn budget_valid_iff_within_ceilings(budget: ChangeBudget)
    ensures
        budget.is_valid() <==> {
            &&& 0 < budget.authored.maximum_operations
            &&& budget.authored.maximum_operations <= MAXIMUM_CHANGE_OPERATIONS
            &&& budget.authored.maximum_preconditions <= MAXIMUM_CHANGE_PRECONDITIONS
            &&& budget.authored.maximum_allocated_identities <= MAXIMUM_CHANGE_ALLOCATED_IDENTITIES
            &&& budget.authored.maximum_type_nodes <= MAXIMUM_CHANGE_AUTHORED_TYPE_NODES
            &&& budget.canonical_edits.maximum_owner_edits <= MAXIMUM_CHANGE_OWNER_EDITS
            &&& budget.canonical_edits.maximum_type_edits <= MAXIMUM_CHANGE_TYPE_EDITS
            &&& budget.canonical_edits.maximum_dependency_edits <= MAXIMUM_CHANGE_DEPENDENCY_EDITS
            &&& budget.canonical_edits.maximum_retirement_edits <= MAXIMUM_CHANGE_RETIREMENT_EDITS
            &&& budget.canonical_reads.maximum_point_reads <= MAXIMUM_CHANGE_CANONICAL_POINT_READS
            &&& budget.canonical_reads.maximum_map_pages <= MAXIMUM_CHANGE_CANONICAL_MAP_PAGES
            &&& budget.canonical_reads.maximum_map_entries <= MAXIMUM_CHANGE_CANONICAL_MAP_ENTRIES
            &&& budget.canonical_reads.maximum_catalog_lookups <= MAXIMUM_CHANGE_CANONICAL_CATALOG_LOOKUPS
            &&& budget.canonical_reads.maximum_objects <= MAXIMUM_CHANGE_CANONICAL_OBJECTS
            &&& budget.canonical_reads.maximum_bytes <= MAXIMUM_CHANGE_CANONICAL_BYTES
            &&& budget.canonical_reads.maximum_decoded_records <= MAXIMUM_CHANGE_CANONICAL_RECORDS
            &&& budget.canonical_map_update.maximum_pages_encoded <= MAXIMUM_CHANGE_CANONICAL_MAP_PAGES_ENCODED
            &&& budget.canonical_map_update.maximum_bytes_encoded <= MAXIMUM_CHANGE_CANONICAL_MAP_BYTES_ENCODED
            &&& budget.witness_reads.maximum_point_reads <= MAXIMUM_CHANGE_WITNESS_POINT_READS
            &&& budget.witness_reads.maximum_map_pages <= MAXIMUM_CHANGE_WITNESS_MAP_PAGES
            &&& budget.witness_reads.maximum_map_entries <= MAXIMUM_CHANGE_WITNESS_MAP_ENTRIES
            &&& budget.witness_reads.maximum_catalog_lookups <= MAXIMUM_CHANGE_WITNESS_CATALOG_LOOKUPS
            &&& budget.witness_reads.maximum_objects <= MAXIMUM_CHANGE_WITNESS_OBJECTS
            &&& budget.witness_reads.maximum_bytes <= MAXIMUM_CHANGE_WITNESS_BYTES
            &&& budget.witness_reads.maximum_decoded_records <= MAXIMUM_CHANGE_WITNESS_RECORDS
            &&& budget.impact.maximum_affected_owners <= MAXIMUM_CHANGE_AFFECTED_OWNERS
            &&& budget.impact.maximum_summary_owners <= MAXIMUM_CHANGE_SUMMARY_OWNERS
            &&& budget.impact.maximum_summary_edits <= MAXIMUM_CHANGE_SUMMARY_EDITS
            &&& budget.impact.maximum_ownership_steps <= MAXIMUM_CHANGE_IMPACT_OWNERSHIP_STEPS
            &&& budget.impact.maximum_behavior_owners <= MAXIMUM_CHANGE_BEHAVIOR_OWNERS
            &&& budget.impact.maximum_relation_edges <= MAXIMUM_CHANGE_RELATION_EDGES
            &&& budget.impact.maximum_relation_fanout <= MAXIMUM_CHANGE_RELATION_FANOUT
            &&& budget.validation.maximum_owner_records <= MAXIMUM_CHANGE_VALIDATION_OWNER_RECORDS
            &&& budget.validation.maximum_ownership_entries <= MAXIMUM_CHANGE_VALIDATION_OWNERSHIP_ENTRIES
            &&& budget.validation.maximum_type_objects <= MAXIMUM_CHANGE_VALIDATION_TYPE_OBJECTS
            &&& budget.validation.maximum_expression_steps <= MAXIMUM_CHANGE_VALIDATION_EXPRESSION_STEPS
            &&& budget.validation.maximum_diagnostics <= MAXIMUM_CHANGE_VALIDATION_DIAGNOSTICS
            &&& budget.tests.maximum_selected <= MAXIMUM_CHANGE_SELECTED_TESTS
            &&& budget.tests.maximum_dependencies_per_test <= MAXIMUM_CHANGE_TEST_DEPENDENCIES_PER_TEST
            &&& budget.tests.maximum_ownership_steps <= MAXIMUM_CHANGE_TEST_OWNERSHIP_STEPS
            &&& budget.tests.maximum_owners_visited <= MAXIMUM_CHANGE_TEST_OWNERS_VISITED
            &&& budget.witness_update.maximum_edits <= MAXIMUM_CHANGE_WITNESS_EDITS
            &&& budget.witness_update.maximum_pages_encoded <= MAXIMUM_CHANGE_WITNESS_MAP_PAGES_ENCODED
            &&& budget.witness_update.maximum_bytes_encoded <= MAXIMUM_CHANGE_WITNESS_MAP_BYTES_ENCODED
            &&& budget.staging.maximum_objects <= MAXIMUM_CHANGE_STAGED_OBJECTS
            &&& budget.staging.maximum_bytes <= MAXIMUM_CHANGE_STAGED_BYTES
            &&& budget.staging.maximum_pages <= MAXIMUM_CHANGE_STAGED_PAGES
        },
{
    let rows = budget.declared_maxima();
    lemma_first_excess_none_iff(rows);
    assert(rows.len() == 45);
    assert(rows[0] == (BudgetDimension::Preconditions, budget.authored.maximum_preconditions, MAXIMUM_CHANGE_PRECONDITIONS));
    assert(rows[1] == (BudgetDimension::AllocatedIdentities, budget.authored.maximum_allocated_identities, MAXIMUM_CHANGE_ALLOCATED_IDENTITIES));
    assert(rows[2] == (BudgetDimension::AuthoredTypeNodes, budget.authored.maximum_type_nodes, MAXIMUM_CHANGE_AUTHORED_TYPE_NODES));
    assert(rows[3] == (BudgetDimension::CanonicalOwnerEdits, budget.canonical_edits.maximum_owner_edits, MAXIMUM_CHANGE_OWNER_EDITS));
    assert(rows[4] == (BudgetDimension::CanonicalTypeEdits, budget.canonical_edits.maximum_type_edits, MAXIMUM_CHANGE_TYPE_EDITS));
    assert(rows[5] == (BudgetDimension::CanonicalDependencyEdits, budget.canonical_edits.maximum_dependency_edits, MAXIMUM_CHANGE_DEPENDENCY_EDITS));
    assert(rows[6] == (BudgetDimension::CanonicalRetirementEdits, budget.canonical_edits.maximum_retirement_edits, MAXIMUM_CHANGE_RETIREMENT_EDITS));
    assert(rows[7] == (BudgetDimension::CanonicalPointReads, budget.canonical_reads.maximum_point_reads, MAXIMUM_CHANGE_CANONICAL_POINT_READS));
    assert(rows[8] == (BudgetDimension::CanonicalMapPages, budget.canonical_reads.maximum_map_pages, MAXIMUM_CHANGE_CANONICAL_MAP_PAGES));
    assert(rows[9] == (BudgetDimension::CanonicalMapEntries, budget.canonical_reads.maximum_map_entries, MAXIMUM_CHANGE_CANONICAL_MAP_ENTRIES));
    assert(rows[10] == (BudgetDimension::CanonicalCatalogLookups, budget.canonical_reads.maximum_catalog_lookups, MAXIMUM_CHANGE_CANONICAL_CATALOG_LOOKUPS));
    assert(rows[11] == (BudgetDimension::CanonicalObjects, budget.canonical_reads.maximum_objects, MAXIMUM_CHANGE_CANONICAL_OBJECTS));
    assert(rows[12] == (BudgetDimension::CanonicalBytes, budget.canonical_reads.maximum_bytes, MAXIMUM_CHANGE_CANONICAL_BYTES));
    assert(rows[13] == (BudgetDimension::CanonicalDecodedRecords, budget.canonical_reads.maximum_decoded_records, MAXIMUM_CHANGE_CANONICAL_RECORDS));
    assert(rows[14] == (BudgetDimension::CanonicalMapPagesEncoded, budget.canonical_map_update.maximum_pages_encoded, MAXIMUM_CHANGE_CANONICAL_MAP_PAGES_ENCODED));
    assert(rows[15] == (BudgetDimension::CanonicalMapBytesEncoded, budget.canonical_map_update.maximum_bytes_encoded, MAXIMUM_CHANGE_CANONICAL_MAP_BYTES_ENCODED));
    assert(rows[16] == (BudgetDimension::WitnessPointReads, budget.witness_reads.maximum_point_reads, MAXIMUM_CHANGE_WITNESS_POINT_READS));
    assert(rows[17] == (BudgetDimension::WitnessMapPages, budget.witness_reads.maximum_map_pages, MAXIMUM_CHANGE_WITNESS_MAP_PAGES));
    assert(rows[18] == (BudgetDimension::WitnessMapEntries, budget.witness_reads.maximum_map_entries, MAXIMUM_CHANGE_WITNESS_MAP_ENTRIES));
    assert(rows[19] == (BudgetDimension::WitnessCatalogLookups, budget.witness_reads.maximum_catalog_lookups, MAXIMUM_CHANGE_WITNESS_CATALOG_LOOKUPS));
    assert(rows[20] == (BudgetDimension::WitnessObjects, budget.witness_reads.maximum_objects, MAXIMUM_CHANGE_WITNESS_OBJECTS));
    assert(rows[21] == (BudgetDimension::WitnessBytes, budget.witness_reads.maximum_bytes, MAXIMUM_CHANGE_WITNESS_BYTES));
    assert(rows[22] == (BudgetDimension::WitnessDecodedRecords, budget.witness_reads.maximum_decoded_records, MAXIMUM_CHANGE_WITNESS_RECORDS));
    assert(rows[23] == (BudgetDimension::AffectedFrontierOwners, budget.impact.maximum_affected_owners, MAXIMUM_CHANGE_AFFECTED_OWNERS));
    assert(rows[24] == (BudgetDimension::ImpactSummaryOwners, budget.impact.maximum_summary_owners, MAXIMUM_CHANGE_SUMMARY_OWNERS));
    assert(rows[25] == (BudgetDimension::ImpactSummaryEdits, budget.impact.maximum_summary_edits, MAXIMUM_CHANGE_SUMMARY_EDITS));
    assert(rows[26] == (BudgetDimension::ImpactOwnershipSteps, budget.impact.maximum_ownership_steps, MAXIMUM_CHANGE_IMPACT_OWNERSHIP_STEPS));
    assert(rows[27] == (BudgetDimension::ImpactBehaviorOwners, budget.impact.maximum_behavior_owners, MAXIMUM_CHANGE_BEHAVIOR_OWNERS));
    assert(rows[28] == (BudgetDimension::RelationEdges, budget.impact.maximum_relation_edges, MAXIMUM_CHANGE_RELATION_EDGES));
    assert(rows[29] == (BudgetDimension::RelationFanout, budget.impact.maximum_relation_fanout, MAXIMUM_CHANGE_RELATION_FANOUT));
    assert(rows[30] == (BudgetDimension::ValidationOwnerRecords, budget.validation.maximum_owner_records, MAXIMUM_CHANGE_VALIDATION_OWNER_RECORDS));
    assert(rows[31] == (BudgetDimension::ValidationOwnershipEntries, budget.validation.maximum_ownership_entries, MAXIMUM_CHANGE_VALIDATION_OWNERSHIP_ENTRIES));
    assert(rows[32] == (BudgetDimension::ValidationTypeObjects, budget.validation.maximum_type_objects, MAXIMUM_CHANGE_VALIDATION_TYPE_OBJECTS));
    assert(rows[33] == (BudgetDimension::ValidationExpressionSteps, budget.validation.maximum_expression_steps, MAXIMUM_CHANGE_VALIDATION_EXPRESSION_STEPS));
    assert(rows[34] == (BudgetDimension::ValidationDiagnostics, budget.validation.maximum_diagnostics, MAXIMUM_CHANGE_VALIDATION_DIAGNOSTICS));
    assert(rows[35] == (BudgetDimension::TestsSelected, budget.tests.maximum_selected, MAXIMUM_CHANGE_SELECTED_TESTS));
    assert(rows[36] == (BudgetDimension::TestDependenciesPerTest, budget.tests.maximum_dependencies_per_test, MAXIMUM_CHANGE_TEST_DEPENDENCIES_PER_TEST));
    assert(rows[37] == (BudgetDimension::TestOwnershipSteps, budget.tests.maximum_ownership_steps, MAXIMUM_CHANGE_TEST_OWNERSHIP_STEPS));
    assert(rows[38] == (BudgetDimension::TestOwnersVisited, budget.tests.maximum_owners_visited, MAXIMUM_CHANGE_TEST_OWNERS_VISITED));
    assert(rows[39] == (BudgetDimension::WitnessEdits, budget.witness_update.maximum_edits, MAXIMUM_CHANGE_WITNESS_EDITS));
    assert(rows[40] == (BudgetDimension::WitnessMapPagesEncoded, budget.witness_update.maximum_pages_encoded, MAXIMUM_CHANGE_WITNESS_MAP_PAGES_ENCODED));
    assert(rows[41] == (BudgetDimension::WitnessMapBytesEncoded, budget.witness_update.maximum_bytes_encoded, MAXIMUM_CHANGE_WITNESS_MAP_BYTES_ENCODED));
    assert(rows[42] == (BudgetDimension::StagedObjects, budget.staging.maximum_objects, MAXIMUM_CHANGE_STAGED_OBJECTS));
    assert(rows[43] == (BudgetDimension::StagedBytes, budget.staging.maximum_bytes, MAXIMUM_CHANGE_STAGED_BYTES));
    assert(rows[44] == (BudgetDimension::StagedPages, budget.staging.maximum_pages, MAXIMUM_CHANGE_STAGED_PAGES));
}

/// Every observed amount beside its declared maximum, in diagnostic order.
pub open spec fn observation_rows(budget: ChangeBudget, work: ChangeBudgetWork) -> Seq<BudgetRow> {
    seq![
            (BudgetDimension::Operations, work.authored_operations, budget.authored.maximum_operations),
            (BudgetDimension::Preconditions, work.preconditions_checked, budget.authored.maximum_preconditions),
            (BudgetDimension::AllocatedIdentities, work.allocated_identities, budget.authored.maximum_allocated_identities),
            (BudgetDimension::AuthoredTypeNodes, work.authored_type_nodes, budget.authored.maximum_type_nodes),
            (BudgetDimension::CanonicalOwnerEdits, work.canonical_edits.owner_edits, budget.canonical_edits.maximum_owner_edits),
            (BudgetDimension::CanonicalTypeEdits, work.canonical_edits.type_edits, budget.canonical_edits.maximum_type_edits),
            (BudgetDimension::CanonicalDependencyEdits, work.canonical_edits.dependency_edits, budget.canonical_edits.maximum_dependency_edits),
            (BudgetDimension::CanonicalRetirementEdits, work.canonical_edits.retirement_edits, budget.canonical_edits.maximum_retirement_edits)
    ] + budget.canonical_reads.rows(work.canonical_reads) + seq![
            (BudgetDimension::CanonicalMapPagesEncoded, work.canonical_map_update.pages_encoded, budget.canonical_map_update.maximum_pages_encoded),
            (BudgetDimension::CanonicalMapBytesEncoded, work.canonical_map_update.bytes_encoded, budget.canonical_map_update.maximum_bytes_encoded)
    ] + budget.witness_reads.rows(work.witness_reads) + seq![
            (BudgetDimension::AffectedFrontierOwners, work.affected_frontier_owners, budget.impact.maximum_affected_owners),
            (BudgetDimension::ImpactSummaryOwners, work.impact_summary_owners, budget.impact.maximum_summary_owners),
            (BudgetDimension::ImpactSummaryEdits, work.impact_summary_edits, budget.impact.maximum_summary_edits),
            (BudgetDimension::ImpactOwnershipSteps, work.impact_ownership_steps, budget.impact.maximum_ownership_steps),
            (BudgetDimension::ImpactBehaviorOwners, work.impact_behavior_owners, budget.impact.maximum_behavior_owners),
            (BudgetDimension::RelationEdges, work.relation_edges, budget.impact.maximum_relation_edges),
            (BudgetDimension::ValidationOwnerRecords, work.validation.owner_records, budget.validation.maximum_owner_records),
            (BudgetDimension::ValidationOwnershipEntries, work.validation.ownership_entries, budget.validation.maximum_ownership_entries),
            (BudgetDimension::ValidationTypeObjects, work.validation.type_objects, budget.validation.maximum_type_objects),
            (BudgetDimension::ValidationExpressionSteps, work.validation.expression_steps, budget.validation.maximum_expression_steps),
            (BudgetDimension::ValidationDiagnostics, work.validation.diagnostics, budget.validation.maximum_diagnostics),
            (BudgetDimension::TestsSelected, work.tests.selected, budget.tests.maximum_selected),
            (BudgetDimension::TestOwnershipSteps, work.tests.ownership_steps, budget.tests.maximum_ownership_steps),
            (BudgetDimension::TestOwnersVisited, work.tests.owners_visited, budget.tests.maximum_owners_visited),
            (BudgetDimension::WitnessEdits, work.witness_update.edits, budget.witness_update.maximum_edits),
            (BudgetDimension::WitnessMapPagesEncoded, work.witness_update.pages_encoded, budget.witness_update.maximum_pages_encoded),
            (BudgetDimension::WitnessMapBytesEncoded, work.witness_update.bytes_encoded, budget.witness_update.maximum_bytes_encoded),
            (BudgetDimension::StagedObjects, work.staging.objects, budget.staging.maximum_objects),
            (BudgetDimension::StagedBytes, work.staging.bytes, budget.staging.maximum_bytes),
            (BudgetDimension::StagedPages, work.staging.pages, budget.staging.maximum_pages)
    ]
}

/// Whether every observed amount lies within its declared maximum.
pub open spec fn within_budget(budget: ChangeBudget, work: ChangeBudgetWork) -> bool {
    first_excess(observation_rows(budget, work)) is None
}

/// Observed work lies within a budget exactly when every observed amount lies within its
/// declared maximum.
pub proof fn within_budget_iff_each_amount_within(budget: ChangeBudget, work: ChangeBudgetWork)
    ensures
        within_budget(budget, work) <==> {
            &&& work.authored_operations <= budget.authored.maximum_operations
            &&& work.preconditions_checked <= budget.authored.maximum_preconditions
            &&& work.allocated_identities <= budget.authored.maximum_allocated_identities
            &&& work.authored_type_nodes <= budget.authored.maximum_type_nodes
            &&& work.canonical_edits.owner_edits <= budget.canonical_edits.maximum_owner_edits
            &&& work.canonical_edits.type_edits <= budget.canonical_edits.maximum_type_edits
            &&& work.canonical_edits.dependency_edits <= budget.canonical_edits.maximum_dependency_edits
            &&& work.canonical_edits.retirement_edits <= budget.canonical_edits.maximum_retirement_edits
            &&& work.canonical_reads.point_reads <= budget.canonical_reads.maximum_point_reads
            &&& work.canonical_reads.map_pages_read <= budget.canonical_reads.maximum_map_pages
            &&& work.canonical_reads.map_entries_visited <= budget.canonical_reads.maximum_map_entries
            &&& work.canonical_reads.catalog_lookups <= budget.canonical_reads.maximum_catalog_lookups
            &&& work.canonical_reads.objects_read <= budget.canonical_reads.maximum_objects
            &&& work.canonical_reads.bytes_read <= budget.canonical_reads.maximum_bytes
            &&& work.canonical_reads.canonical_records_decoded <= budget.canonical_reads.maximum_decoded_records
            &&& work.canonical_map_update.pages_encoded <= budget.canonical_map_update.maximum_pages_encoded
            &&& work.canonical_map_update.bytes_encoded <= budget.canonical_map_update.maximum_bytes_encoded
            &&& work.witness_reads.point_reads <= budget.witness_reads.maximum_point_reads
            &&& work.witness_reads.map_pages_read <= budget.witness_reads.maximum_map_pages
            &&& work.witness_reads.map_entries_visited <= budget.witness_reads.maximum_map_entries
            &&& work.witness_reads.catalog_lookups <= budget.witness_reads.maximum_catalog_lookups
            &&& work.witness_reads.objects_read <= budget.witness_reads.maximum_objects
            &&& work.witness_reads.bytes_read <= budget.witness_reads.maximum_bytes
            &&& work.witness_reads.witness_records_decoded <= budget.witness_reads.maximum_decoded_records
            &&& work.affected_frontier_owners <= budget.impact.maximum_affected_owners
            &&& work.impact_summary_owners <= budget.impact.maximum_summary_owners
            &&& work.impact_summary_edits <= budget.impact.maximum_summary_edits
            &&& work.impact_ownership_steps <= budget.impact.maximum_ownership_steps
            &&& work.impact_behavior_owners <= budget.impact.maximum_behavior_owners
            &&& work.relation_edges <= budget.impact.maximum_relation_edges
            &&& work.validation.owner_records <= budget.validation.maximum_owner_records
            &&& work.validation.ownership_entries <= budget.validation.maximum_ownership_entries
            &&& work.validation.type_objects <= budget.validation.maximum_type_objects
            &&& work.validation.expression_steps <= budget.validation.maximum_expression_steps
            &&& work.validation.diagnostics <= budget.validation.maximum_diagnostics
            &&& work.tests.selected <= budget.tests.maximum_selected
            &&& work.tests.ownership_steps <= budget.tests.maximum_ownership_steps
            &&& work.tests.owners_visited <= budget.tests.maximum_owners_visited
            &&& work.witness_update.edits <= budget.witness_update.maximum_edits
            &&& work.witness_update.pages_encoded <= budget.witness_update.maximum_pages_encoded
            &&& work.witness_update.bytes_encoded <= budget.witness_update.maximum_bytes_encoded
            &&& work.staging.objects <= budget.staging.maximum_objects
            &&& work.staging.bytes <= budget.staging.maximum_bytes
            &&& work.staging.pages <= budget.staging.maximum_pages
        },
{
    let rows = observation_rows(budget, work);
    lemma_first_excess_none_iff(rows);
    assert(rows.len() == 44);
    assert(rows[0] == (BudgetDimension::Operations, work.authored_operations, budget.authored.maximum_operations));
    assert(rows[1] == (BudgetDimension::Preconditions, work.preconditions_checked, budget.authored.maximum_preconditions));
    assert(rows[2] == (BudgetDimension::AllocatedIdentities, work.allocated_identities, budget.authored.maximum_allocated_identities));
    assert(rows[3] == (BudgetDimension::AuthoredTypeNodes, work.authored_type_nodes, budget.authored.maximum_type_nodes));
    assert(rows[4] == (BudgetDimension::CanonicalOwnerEdits, work.canonical_edits.owner_edits, budget.canonical_edits.maximum_owner_edits));
    assert(rows[5] == (BudgetDimension::CanonicalTypeEdits, work.canonical_edits.type_edits, budget.canonical_edits.maximum_type_edits));
    assert(rows[6] == (BudgetDimension::CanonicalDependencyEdits, work.canonical_edits.dependency_edits, budget.canonical_edits.maximum_dependency_edits));
    assert(rows[7] == (BudgetDimension::CanonicalRetirementEdits, work.canonical_edits.retirement_edits, budget.canonical_edits.maximum_retirement_edits));
    assert(rows[8] == (BudgetDimension::CanonicalPointReads, work.canonical_reads.point_reads, budget.canonical_reads.maximum_point_reads));
    assert(rows[9] == (BudgetDimension::CanonicalMapPages, work.canonical_reads.map_pages_read, budget.canonical_reads.maximum_map_pages));
    assert(rows[10] == (BudgetDimension::CanonicalMapEntries, work.canonical_reads.map_entries_visited, budget.canonical_reads.maximum_map_entries));
    assert(rows[11] == (BudgetDimension::CanonicalCatalogLookups, work.canonical_reads.catalog_lookups, budget.canonical_reads.maximum_catalog_lookups));
    assert(rows[12] == (BudgetDimension::CanonicalObjects, work.canonical_reads.objects_read, budget.canonical_reads.maximum_objects));
    assert(rows[13] == (BudgetDimension::CanonicalBytes, work.canonical_reads.bytes_read, budget.canonical_reads.maximum_bytes));
    assert(rows[14] == (BudgetDimension::CanonicalDecodedRecords, work.canonical_reads.canonical_records_decoded, budget.canonical_reads.maximum_decoded_records));
    assert(rows[15] == (BudgetDimension::CanonicalMapPagesEncoded, work.canonical_map_update.pages_encoded, budget.canonical_map_update.maximum_pages_encoded));
    assert(rows[16] == (BudgetDimension::CanonicalMapBytesEncoded, work.canonical_map_update.bytes_encoded, budget.canonical_map_update.maximum_bytes_encoded));
    assert(rows[17] == (BudgetDimension::WitnessPointReads, work.witness_reads.point_reads, budget.witness_reads.maximum_point_reads));
    assert(rows[18] == (BudgetDimension::WitnessMapPages, work.witness_reads.map_pages_read, budget.witness_reads.maximum_map_pages));
    assert(rows[19] == (BudgetDimension::WitnessMapEntries, work.witness_reads.map_entries_visited, budget.witness_reads.maximum_map_entries));
    assert(rows[20] == (BudgetDimension::WitnessCatalogLookups, work.witness_reads.catalog_lookups, budget.witness_reads.maximum_catalog_lookups));
    assert(rows[21] == (BudgetDimension::WitnessObjects, work.witness_reads.objects_read, budget.witness_reads.maximum_objects));
    assert(rows[22] == (BudgetDimension::WitnessBytes, work.witness_reads.bytes_read, budget.witness_reads.maximum_bytes));
    assert(rows[23] == (BudgetDimension::WitnessDecodedRecords, work.witness_reads.witness_records_decoded, budget.witness_reads.maximum_decoded_records));
    assert(rows[24] == (BudgetDimension::AffectedFrontierOwners, work.affected_frontier_owners, budget.impact.maximum_affected_owners));
    assert(rows[25] == (BudgetDimension::ImpactSummaryOwners, work.impact_summary_owners, budget.impact.maximum_summary_owners));
    assert(rows[26] == (BudgetDimension::ImpactSummaryEdits, work.impact_summary_edits, budget.impact.maximum_summary_edits));
    assert(rows[27] == (BudgetDimension::ImpactOwnershipSteps, work.impact_ownership_steps, budget.impact.maximum_ownership_steps));
    assert(rows[28] == (BudgetDimension::ImpactBehaviorOwners, work.impact_behavior_owners, budget.impact.maximum_behavior_owners));
    assert(rows[29] == (BudgetDimension::RelationEdges, work.relation_edges, budget.impact.maximum_relation_edges));
    assert(rows[30] == (BudgetDimension::ValidationOwnerRecords, work.validation.owner_records, budget.validation.maximum_owner_records));
    assert(rows[31] == (BudgetDimension::ValidationOwnershipEntries, work.validation.ownership_entries, budget.validation.maximum_ownership_entries));
    assert(rows[32] == (BudgetDimension::ValidationTypeObjects, work.validation.type_objects, budget.validation.maximum_type_objects));
    assert(rows[33] == (BudgetDimension::ValidationExpressionSteps, work.validation.expression_steps, budget.validation.maximum_expression_steps));
    assert(rows[34] == (BudgetDimension::ValidationDiagnostics, work.validation.diagnostics, budget.validation.maximum_diagnostics));
    assert(rows[35] == (BudgetDimension::TestsSelected, work.tests.selected, budget.tests.maximum_selected));
    assert(rows[36] == (BudgetDimension::TestOwnershipSteps, work.tests.ownership_steps, budget.tests.maximum_ownership_steps));
    assert(rows[37] == (BudgetDimension::TestOwnersVisited, work.tests.owners_visited, budget.tests.maximum_owners_visited));
    assert(rows[38] == (BudgetDimension::WitnessEdits, work.witness_update.edits, budget.witness_update.maximum_edits));
    assert(rows[39] == (BudgetDimension::WitnessMapPagesEncoded, work.witness_update.pages_encoded, budget.witness_update.maximum_pages_encoded));
    assert(rows[40] == (BudgetDimension::WitnessMapBytesEncoded, work.witness_update.bytes_encoded, budget.witness_update.maximum_bytes_encoded));
    assert(rows[41] == (BudgetDimension::StagedObjects, work.staging.objects, budget.staging.maximum_objects));
    assert(rows[42] == (BudgetDimension::StagedBytes, work.staging.bytes, budget.staging.maximum_bytes));
    assert(rows[43] == (BudgetDimension::StagedPages, work.staging.pages, budget.staging.maximum_pages));
}

/// The code `check_observed` reports: an invalid budget's own code, else the first exhausted
/// dimension's.
pub open spec fn observed_code(budget: ChangeBudget, work: ChangeBudgetWork) -> Seq<char> {
    if !budget.is_valid() {
        budget.validation_code()
    } else {
        first_excess(observation_rows(budget, work)).unwrap().code_view()
    }
}

/// Checks canonical read observations against their admission.
pub fn check_canonical_reads(phase: &str, work: CanonicalReadWork, budget: CanonicalReadAdmission) -> (r: Result<(), Diagnostic>)
    ensures
        r is Ok <==> first_excess(budget.rows(work)) is None,
        r matches Err(d) ==> d.class == DiagnosticClass::Resource
            && Some(d.code@) == excess_code(budget.rows(work)),
{
    budget.check_work(work, phase)
}

/// Checks witness read observations against their admission.
pub fn check_witness_reads(phase: &str, work: WitnessReadWork, budget: WitnessReadAdmission) -> (r: Result<(), Diagnostic>)
    ensures
        r is Ok <==> first_excess(budget.rows(work)) is None,
        r matches Err(d) ==> d.class == DiagnosticClass::Resource
            && Some(d.code@) == excess_code(budget.rows(work)),
{
    budget.check_work(work, phase)
}

/// Checks every observation of `work` against `budget`, in diagnostic order.
pub fn check_all(phase: &str, budget: ChangeBudget, work: ChangeBudgetWork) -> (r: Result<(), Diagnostic>)
    ensures
        r is Ok <==> within_budget(budget, work),
        r matches Err(d) ==> d.class == DiagnosticClass::Resource
            && Some(d.code@) == excess_code(observation_rows(budget, work)),
{
    let head: Vec<BudgetRow> = vec![
            (BudgetDimension::Operations, work.authored_operations, budget.authored.maximum_operations),
            (BudgetDimension::Preconditions, work.preconditions_checked, budget.authored.maximum_preconditions),
            (BudgetDimension::AllocatedIdentities, work.allocated_identities, budget.authored.maximum_allocated_identities),
            (BudgetDimension::AuthoredTypeNodes, work.authored_type_nodes, budget.authored.maximum_type_nodes),
            (BudgetDimension::CanonicalOwnerEdits, work.canonical_edits.owner_edits, budget.canonical_edits.maximum_owner_edits),
            (BudgetDimension::CanonicalTypeEdits, work.canonical_edits.type_edits, budget.canonical_edits.maximum_type_edits),
            (BudgetDimension::CanonicalDependencyEdits, work.canonical_edits.dependency_edits, budget.canonical_edits.maximum_dependency_edits),
            (BudgetDimension::CanonicalRetirementEdits, work.canonical_edits.retirement_edits, budget.canonical_edits.maximum_retirement_edits)
    ];
    let map_update: Vec<BudgetRow> = vec![
            (BudgetDimension::CanonicalMapPagesEncoded, work.canonical_map_update.pages_encoded, budget.canonical_map_update.maximum_pages_encoded),
            (BudgetDimension::CanonicalMapBytesEncoded, work.canonical_map_update.bytes_encoded, budget.canonical_map_update.maximum_bytes_encoded)
    ];
    let tail: Vec<BudgetRow> = vec![
            (BudgetDimension::AffectedFrontierOwners, work.affected_frontier_owners, budget.impact.maximum_affected_owners),
            (BudgetDimension::ImpactSummaryOwners, work.impact_summary_owners, budget.impact.maximum_summary_owners),
            (BudgetDimension::ImpactSummaryEdits, work.impact_summary_edits, budget.impact.maximum_summary_edits),
            (BudgetDimension::ImpactOwnershipSteps, work.impact_ownership_steps, budget.impact.maximum_ownership_steps),
            (BudgetDimension::ImpactBehaviorOwners, work.impact_behavior_owners, budget.impact.maximum_behavior_owners),
            (BudgetDimension::RelationEdges, work.relation_edges, budget.impact.maximum_relation_edges),
            (BudgetDimension::ValidationOwnerRecords, work.validation.owner_records, budget.validation.maximum_owner_records),
            (BudgetDimension::ValidationOwnershipEntries, work.validation.ownership_entries, budget.validation.maximum_ownership_entries),
            (BudgetDimension::ValidationTypeObjects, work.validation.type_objects, budget.validation.maximum_type_objects),
            (BudgetDimension::ValidationExpressionSteps, work.validation.expression_steps, budget.validation.maximum_expression_steps),
            (BudgetDimension::ValidationDiagnostics, work.validation.diagnostics, budget.validation.maximum_diagnostics),
            (BudgetDimension::TestsSelected, work.tests.selected, budget.tests.maximum_selected),
            (BudgetDimension::TestOwnershipSteps, work.tests.ownership_steps, budget.tests.maximum_ownership_steps),
            (BudgetDimension::TestOwnersVisited, work.tests.owners_visited, budget.tests.maximum_owners_visited),
            (BudgetDimension::WitnessEdits, work.witness_update.edits, budget.witness_update.maximum_edits),
            (BudgetDimension::WitnessMapPagesEncoded, work.witness_update.pages_encoded, budget.witness_update.maximum_pages_encoded),
            (BudgetDimension::WitnessMapBytesEncoded, work.witness_update.bytes_encoded, budget.witness_update.maximum_bytes_encoded),
            (BudgetDimension::StagedObjects, work.staging.objects, budget.staging.maximum_objects),
            (BudgetDimension::StagedBytes, work.staging.bytes, budget.staging.maximum_bytes),
            (BudgetDimension::StagedPages, work.staging.pages, budget.staging.maximum_pages)
    ];
    let ghost h = head@;
    let ghost c = budget.canonical_reads.rows(work.canonical_reads);
    let ghost m = map_update@;
    let ghost w = budget.witness_reads.rows(work.witness_reads);
    let ghost t = tail@;
    proof {
        assert(observation_rows(budget, work) =~= h + (c + (m + (w + t))));
        lemma_first_excess_concat(h, c + (m + (w + t)));
        lemma_first_excess_concat(c, m + (w + t));
        lemma_first_excess_concat(m, w + t);
        lemma_first_excess_concat(w, t);
    }
    check_rows(phase, &head)?;
    check_canonical_reads(phase, work.canonical_reads, budget.canonical_reads)?;
    check_rows(phase, &map_update)?;
    check_witness_reads(phase, work.witness_reads, budget.witness_reads)?;
    check_rows(phase, &tail)
}


/// What remains of each row's maximum after its observation, or the first exhausted row.
pub fn remaining_rows(phase: &str, rows: &Vec<BudgetRow>) -> (r: Result<Vec<u64>, Diagnostic>)
    ensures
        r is Ok <==> first_excess(rows@) is None,
        r matches Ok(v) ==> v@.len() == rows@.len()
            && forall|i: int| 0 <= i < rows@.len() ==> #[trigger] v@[i] == rows@[i].2 - rows@[i].1,
        r matches Err(d) ==> d.class == DiagnosticClass::Resource
            && Some(d.code@) == excess_code(rows@),
{
    check_rows(phase, rows)?;
    proof {
        lemma_first_excess_none(rows@);
    }
    let mut remaining: Vec<u64> = Vec::new();
    let mut i: usize = 0;
    while i < rows.len()
        invariant
            0 <= i <= rows@.len(),
            remaining@.len() == i,
            forall|j: int| 0 <= j < rows@.len() ==> rows@[j].1 <= rows@[j].2,
            forall|j: int| 0 <= j < i ==> #[trigger] remaining@[j] == rows@[j].2 - rows@[j].1,
        decreases rows@.len() - i,
    {
        let (_, observed, maximum) = rows[i];
        remaining.push(maximum - observed);
        i = i + 1;
    }
    Ok(remaining)
}

impl ChangeBudget {
    /// Validates the budget, then checks the request's operation and precondition counts.
    pub fn validate_request_counts(self, changes: usize, preconditions: usize) -> (r: Result<Self, Diagnostic>)
        ensures
            r is Ok <==> self.is_valid()
                && count_spec(changes) <= self.authored.maximum_operations
                && count_spec(preconditions) <= self.authored.maximum_preconditions,
            r matches Ok(b) ==> b == self,
            r matches Err(d) ==> d.class == DiagnosticClass::Resource && d.code@ == (
                if !self.is_valid() {
                    self.validation_code()
                } else if count_spec(changes) > self.authored.maximum_operations {
                    BudgetDimension::Operations.code_view()
                } else {
                    BudgetDimension::Preconditions.code_view()
                }),
    {
        let budget = self.validate()?;
        check_dimension(
            "authored request",
            BudgetDimension::Operations,
            count(changes),
            budget.authored.maximum_operations,
        )?;
        check_dimension(
            "authored request",
            BudgetDimension::Preconditions,
            count(preconditions),
            budget.authored.maximum_preconditions,
        )?;
        Ok(budget)
    }

    /// Checks the number of identities the request allocates.
    pub fn check_allocated_identities(self, identities: usize) -> (r: Result<(), Diagnostic>)
        ensures
            r is Ok <==> count_spec(identities) <= self.authored.maximum_allocated_identities,
            r matches Err(d) ==> d.class == DiagnosticClass::Resource
                && d.code@ == BudgetDimension::AllocatedIdentities.code_view(),
    {
        check_dimension(
            "authored allocation",
            BudgetDimension::AllocatedIdentities,
            count(identities),
            self.authored.maximum_allocated_identities,
        )
    }

    /// Checks canonical edit counts, and nothing else, against this budget.
    pub fn check_canonical_edit_counts(
        self,
        owner_edits: u64,
        type_edits: u64,
        dependency_edits: u64,
        retirement_edits: u64,
        phase: &str,
    ) -> (r: Result<(), Diagnostic>)
        ensures
            ({
                let work = ChangeBudgetWork {
                    canonical_edits: CanonicalEditWork { owner_edits, type_edits, dependency_edits, retirement_edits },
                    ..ChangeBudgetWork::zero()
                };
                &&& r is Ok <==> self.is_valid() && within_budget(self, work)
                &&& r matches Err(d) ==> d.class == DiagnosticClass::Resource && d.code@ == observed_code(self, work)
            }),
    {
        let mut work = ChangeBudgetWork::default();
        work.canonical_edits = CanonicalEditWork {
            owner_edits,
            type_edits,
            dependency_edits,
            retirement_edits,
        };
        self.check_observed(work, phase)
    }

    /// Validates this budget and checks every observation of `work` against it.
    pub fn check_observed(self, work: ChangeBudgetWork, phase: &str) -> (r: Result<(), Diagnostic>)
        ensures
            r is Ok <==> self.is_valid() && within_budget(self, work),
            r matches Err(d) ==> d.class == DiagnosticClass::Resource && d.code@ == observed_code(self, work),
    {
        let budget = self.validate()?;
        let meter = ChangeBudgetMeter { budget, work };
        meter.check(phase)
    }

    /// Relation edges that remain after `observed`.
    pub fn remaining_relation_edges(self, observed: u64, phase: &str) -> (r: Result<u64, Diagnostic>)
        ensures
            r matches Ok(v) ==> observed <= self.impact.maximum_relation_edges
                && v == self.impact.maximum_relation_edges - observed,
            r is Err ==> observed > self.impact.maximum_relation_edges,
            r matches Err(d) ==> d.class == DiagnosticClass::Resource
                && d.code@ == BudgetDimension::RelationEdges.code_view(),
    {
        remaining_dimension(
            phase,
            BudgetDimension::RelationEdges,
            observed,
            self.impact.maximum_relation_edges,
        )
    }

    /// The store limits that remain for canonical reads after `observed`.
    pub open spec fn store_rows(self, observed: ChangeBudgetWork) -> Seq<BudgetRow> {
        seq![
            (BudgetDimension::CanonicalCatalogLookups, observed.canonical_reads.catalog_lookups, self.canonical_reads.maximum_catalog_lookups),
            (BudgetDimension::CanonicalObjects, observed.canonical_reads.objects_read, self.canonical_reads.maximum_objects),
            (BudgetDimension::CanonicalBytes, observed.canonical_reads.bytes_read, self.canonical_reads.maximum_bytes),
        ]
    }

    /// Validates this budget and returns the canonical store limits that remain after `observed`.
    pub fn canonical_store_read_admission(self, observed: ChangeBudgetWork, phase: &str) -> (r: Result<StoreReadLimits, Diagnostic>)
        ensures
            r is Ok <==> self.is_valid() && first_excess(self.store_rows(observed)) is None,
            r matches Ok(l) ==> l == (StoreReadLimits {
                maximum_catalog_lookups: (self.canonical_reads.maximum_catalog_lookups - observed.canonical_reads.catalog_lookups) as u64,
                maximum_objects: (self.canonical_reads.maximum_objects - observed.canonical_reads.objects_read) as u64,
                maximum_bytes: (self.canonical_reads.maximum_bytes - observed.canonical_reads.bytes_read) as u64,
            }),
            r matches Err(d) ==> d.class == DiagnosticClass::Resource && (if self.is_valid() {
                Some(d.code@) == excess_code(self.store_rows(observed))
            } else {
                d.code@ == self.validation_code()
            }),
    {
        self.validate()?;
        let rows: Vec<BudgetRow> = vec![
            (BudgetDimension::CanonicalCatalogLookups, observed.canonical_reads.catalog_lookups, self.canonical_reads.maximum_catalog_lookups),
            (BudgetDimension::CanonicalObjects, observed.canonical_reads.objects_read, self.canonical_reads.maximum_objects),
            (BudgetDimension::CanonicalBytes, observed.canonical_reads.bytes_read, self.canonical_reads.maximum_bytes),
        ];
        assert(rows@ =~= self.store_rows(observed));
        let remaining = remaining_rows(phase, &rows)?;
        Ok(StoreReadLimits {
            maximum_catalog_lookups: remaining[0],
            maximum_objects: remaining[1],
            maximum_bytes: remaining[2],
        })
    }

    /// The persistent-map admission rows for canonical reads and updates.
    pub open spec fn map_rows(self, observed: ChangeBudgetWork) -> Seq<BudgetRow> {
        seq![
            (BudgetDimension::CanonicalMapPages, observed.canonical_reads.map_pages_read, self.canonical_reads.maximum_map_pages),
            (BudgetDimension::CanonicalBytes, observed.canonical_reads.bytes_read, self.canonical_reads.maximum_bytes),
            (BudgetDimension::CanonicalMapEntries, observed.canonical_reads.map_entries_visited, self.canonical_reads.maximum_map_entries),
            (BudgetDimension::CanonicalMapPagesEncoded, observed.canonical_map_update.pages_encoded, self.canonical_map_update.maximum_pages_encoded),
            (BudgetDimension::CanonicalMapBytesEncoded, observed.canonical_map_update.bytes_encoded, self.canonical_map_update.maximum_bytes_encoded),
        ]
    }

    /// Validates this budget and returns the canonical map admission that remains after `observed`.
    pub fn canonical_map_admission(self, observed: ChangeBudgetWork, phase: &str) -> (r: Result<MapAdmission, Diagnostic>)
        ensures
            r is Ok <==> self.is_valid() && first_excess(self.map_rows(observed)) is None,
            r matches Ok(m) ==> m == (MapAdmission {
                maximum_pages_read: (self.canonical_reads.maximum_map_pages - observed.canonical_reads.map_pages_read) as u64,
                maximum_bytes_read: (self.canonical_reads.maximum_bytes - observed.canonical_reads.bytes_read) as u64,
                maximum_entries_visited: (self.canonical_reads.maximum_map_entries - observed.canonical_reads.map_entries_visited) as u64,
                maximum_pages_encoded: (self.canonical_map_update.maximum_pages_encoded - observed.canonical_map_update.pages_encoded) as u64,
                maximum_bytes_encoded: (self.canonical_map_update.maximum_bytes_encoded - observed.canonical_map_update.bytes_encoded) as u64,
            }),
            r matches Err(d) ==> d.class == DiagnosticClass::Resource && (if self.is_valid() {
                Some(d.code@) == excess_code(self.map_rows(observed))
            } else {
                d.code@ == self.validation_code()
            }),
    {
        self.validate()?;
        let rows: Vec<BudgetRow> = vec![
            (BudgetDimension::CanonicalMapPages, observed.canonical_reads.map_pages_read, self.canonical_reads.maximum_map_pages),
            (BudgetDimension::CanonicalBytes, observed.canonical_reads.bytes_read, self.canonical_reads.maximum_bytes),
            (BudgetDimension::CanonicalMapEntries, observed.canonical_reads.map_entries_visited, self.canonical_reads.maximum_map_entries),
            (BudgetDimension::CanonicalMapPagesEncoded, observed.canonical_map_update.pages_encoded, self.canonical_map_update.maximum_pages_encoded),
            (BudgetDimension::CanonicalMapBytesEncoded, observed.canonical_map_update.bytes_encoded, self.canonical_map_update.maximum_bytes_encoded),
        ];
        assert(rows@ =~= self.map_rows(observed));
        let remaining = remaining_rows(phase, &rows)?;
        Ok(MapAdmission {
            maximum_pages_read: remaining[0],
            maximum_bytes_read: remaining[1],
            maximum_entries_visited: remaining[2],
            maximum_pages_encoded: remaining[3],
            maximum_bytes_encoded: remaining[4],
        })
    }
}

/// A validated budget together with the work observed so far.
pub struct ChangeBudgetMeter {
    budget: ChangeBudget,
    work: ChangeBudgetWork,
}

impl ChangeBudgetMeter {
    /// The declared budget this meter enforces.
    pub closed spec fn declared(&self) -> ChangeBudget {
        self.budget
    }

    /// The work this meter has observed.
    pub closed spec fn observed(&self) -> ChangeBudgetWork {
        self.work
    }

    /// Starts metering after validating `budget` and checking the `initial` work against it.
    pub fn new(budget: ChangeBudget, initial: ChangeBudgetWork) -> (r: Result<Self, Diagnostic>)
        ensures
            r is Ok <==> budget.is_valid() && within_budget(budget, initial),
            r matches Ok(m) ==> m.declared() == budget && m.observed() == initial,
            r matches Err(d) ==> d.class == DiagnosticClass::Resource && d.code@ == observed_code(budget, initial),
    {
        let meter = ChangeBudgetMeter { budget: budget.validate()?, work: initial };
        meter.check("authored normalization")?;
        Ok(meter)
    }

    /// Checks every observation against the declared budget.
    pub fn check(&self, phase: &str) -> (r: Result<(), Diagnostic>)
        ensures
            r is Ok <==> within_budget(self.declared(), self.observed()),
            r matches Err(d) ==> d.class == DiagnosticClass::Resource
                && d.code@ == first_excess(observation_rows(self.declared(), self.observed())).unwrap().code_view(),
    {
        check_all(phase, self.budget, self.work)
    }

    /// Records semantic-validation expression steps and diagnostics, then checks the budget.
    pub fn observe_expression_validation(&mut self, expression_steps: u64, diagnostics: u64) -> (r: Result<(), Diagnostic>)
        ensures
            final(self).declared() == old(self).declared(),
            final(self).observed() == (ChangeBudgetWork {
                validation: ValidationBudgetWork {
                    expression_steps: sat_add(old(self).observed().validation.expression_steps, expression_steps),
                    diagnostics: sat_add(old(self).observed().validation.diagnostics, diagnostics),
                    ..old(self).observed().validation
                },
                ..old(self).observed()
            }),
            r is Ok <==> within_budget(final(self).declared(), final(self).observed()),
            r matches Err(d) ==> d.class == DiagnosticClass::Resource
                && d.code@ == first_excess(observation_rows(final(self).declared(), final(self).observed())).unwrap().code_view(),
    {
        self.work.validation.expression_steps = self.work.validation.expression_steps.saturating_add(expression_steps);
        self.work.validation.diagnostics = self.work.validation.diagnostics.saturating_add(diagnostics);
        self.check("semantic validation")
    }

    /// Records candidate canonical reads, then checks the budget.
    pub fn observe_canonical_reads(&mut self, reads: CanonicalReadWork) -> (r: Result<(), Diagnostic>)
        ensures
            final(self).declared() == old(self).declared(),
            final(self).observed() == (ChangeBudgetWork {
                canonical_reads: old(self).observed().canonical_reads.sum(reads),
                ..old(self).observed()
            }),
            r is Ok <==> within_budget(final(self).declared(), final(self).observed()),
            r matches Err(d) ==> d.class == DiagnosticClass::Resource
                && d.code@ == first_excess(observation_rows(final(self).declared(), final(self).observed())).unwrap().code_view(),
    {
        self.work.canonical_reads.add(reads);
        self.check("candidate canonical reads")
    }

    /// Relation edges that remain for later phases.
    pub fn remaining_relation_edges(&self, phase: &str) -> (r: Result<u64, Diagnostic>)
        ensures
            r matches Ok(v) ==> self.observed().relation_edges <= self.declared().impact.maximum_relation_edges
                && v == self.declared().impact.maximum_relation_edges - self.observed().relation_edges,
            r is Err ==> self.observed().relation_edges > self.declared().impact.maximum_relation_edges,
            r matches Err(d) ==> d.code@ == BudgetDimension::RelationEdges.code_view(),
    {
        self.budget.remaining_relation_edges(self.work.relation_edges, phase)
    }

    /// Impact ownership steps that remain for later phases.
    pub fn remaining_impact_ownership_steps(&self, phase: &str) -> (r: Result<u64, Diagnostic>)
        ensures
            r matches Ok(v) ==> self.observed().impact_ownership_steps <= self.declared().impact.maximum_ownership_steps
                && v == self.declared().impact.maximum_ownership_steps - self.observed().impact_ownership_steps,
            r is Err ==> self.observed().impact_ownership_steps > self.declared().impact.maximum_ownership_steps,
            r matches Err(d) ==> d.code@ == BudgetDimension::ImpactOwnershipSteps.code_view(),
    {
        remaining_dimension(
            phase,
            BudgetDimension::ImpactOwnershipSteps,
            self.work.impact_ownership_steps,
            self.budget.impact.maximum_ownership_steps,
        )
    }

    /// Witness records that remain decodable for later phases.
    pub fn remaining_witness_records(&self, phase: &str) -> (r: Result<u64, Diagnostic>)
        ensures
            r matches Ok(v) ==> self.observed().witness_reads.witness_records_decoded <= self.declared().witness_reads.maximum_decoded_records
                && v == self.declared().witness_reads.maximum_decoded_records - self.observed().witness_reads.witness_records_decoded,
            r is Err ==> self.observed().witness_reads.witness_records_decoded > self.declared().witness_reads.maximum_decoded_records,
            r matches Err(d) ==> d.code@ == BudgetDimension::WitnessDecodedRecords.code_view(),
    {
        remaining_dimension(
            phase,
            BudgetDimension::WitnessDecodedRecords,
            self.work.witness_reads.witness_records_decoded,
            self.budget.witness_reads.maximum_decoded_records,
        )
    }

    /// The witness-map admission rows, in diagnostic order.
    pub open spec fn witness_map_rows(budget: ChangeBudget, work: ChangeBudgetWork) -> Seq<BudgetRow> {
        seq![
            (BudgetDimension::WitnessBytes, work.witness_reads.bytes_read, budget.witness_reads.maximum_bytes),
            (BudgetDimension::WitnessMapPages, work.witness_reads.map_pages_read, budget.witness_reads.maximum_map_pages),
            (BudgetDimension::WitnessMapEntries, work.witness_reads.map_entries_visited, budget.witness_reads.maximum_map_entries),
            (BudgetDimension::WitnessMapPagesEncoded, work.witness_update.pages_encoded, budget.witness_update.maximum_pages_encoded),
            (BudgetDimension::WitnessMapBytesEncoded, work.witness_update.bytes_encoded, budget.witness_update.maximum_bytes_encoded),
            (BudgetDimension::WitnessCatalogLookups, work.witness_reads.catalog_lookups, budget.witness_reads.maximum_catalog_lookups),
            (BudgetDimension::WitnessObjects, work.witness_reads.objects_read, budget.witness_reads.maximum_objects),
        ]
    }

    /// The witness-map admission that remains after the observed work.
    pub fn witness_map_admission(&self, phase: &str) -> (r: Result<WitnessMapAdmission, Diagnostic>)
        ensures
            ({
                let b = self.declared();
                let w = self.observed();
                &&& r is Ok <==> first_excess(Self::witness_map_rows(b, w)) is None
                &&& r matches Ok(a) ==> a == (WitnessMapAdmission {
                    map: MapAdmission {
                        maximum_pages_read: (b.witness_reads.maximum_map_pages - w.witness_reads.map_pages_read) as u64,
                        maximum_entries_visited: (b.witness_reads.maximum_map_entries - w.witness_reads.map_entries_visited) as u64,
                        maximum_bytes_read: (b.witness_reads.maximum_bytes - w.witness_reads.bytes_read) as u64,
                        maximum_pages_encoded: (b.witness_update.maximum_pages_encoded - w.witness_update.pages_encoded) as u64,
                        maximum_bytes_encoded: (b.witness_update.maximum_bytes_encoded - w.witness_update.bytes_encoded) as u64,
                    },
                    maximum_catalog_lookups: (b.witness_reads.maximum_catalog_lookups - w.witness_reads.catalog_lookups) as u64,
                    maximum_objects: (b.witness_reads.maximum_objects - w.witness_reads.objects_read) as u64,
                    maximum_bytes: (b.witness_reads.maximum_bytes - w.witness_reads.bytes_read) as u64,
                })
                &&& r matches Err(d) ==> d.class == DiagnosticClass::Resource
                    && Some(d.code@) == excess_code(Self::witness_map_rows(b, w))
            }),
    {
        let budget = self.budget;
        let work = self.work;
        let rows: Vec<BudgetRow> = vec![
            (BudgetDimension::WitnessBytes, work.witness_reads.bytes_read, budget.witness_reads.maximum_bytes),
            (BudgetDimension::WitnessMapPages, work.witness_reads.map_pages_read, budget.witness_reads.maximum_map_pages),
            (BudgetDimension::WitnessMapEntries, work.witness_reads.map_entries_visited, budget.witness_reads.maximum_map_entries),
            (BudgetDimension::WitnessMapPagesEncoded, work.witness_update.pages_encoded, budget.witness_update.maximum_pages_encoded),
            (BudgetDimension::WitnessMapBytesEncoded, work.witness_update.bytes_encoded, budget.witness_update.maximum_bytes_encoded),
            (BudgetDimension::WitnessCatalogLookups, work.witness_reads.catalog_lookups, budget.witness_reads.maximum_catalog_lookups),
            (BudgetDimension::WitnessObjects, work.witness_reads.objects_read, budget.witness_reads.maximum_objects),
        ];
        assert(rows@ =~= Self::witness_map_rows(budget, work));
        let remaining = remaining_rows(phase, &rows)?;
        Ok(WitnessMapAdmission {
            map: MapAdmission {
                maximum_pages_read: remaining[1],
                maximum_entries_visited: remaining[2],
                maximum_bytes_read: remaining[0],
                maximum_pages_encoded: remaining[3],
                maximum_bytes_encoded: remaining[4],
            },
            maximum_catalog_lookups: remaining[5],
            maximum_objects: remaining[6],
            maximum_bytes: remaining[0],
        })
    }

    /// Ends metering and returns the observed work.
    pub fn finish(self) -> (r: ChangeBudgetWork)
        ensures
            r == self.observed(),
    {
        self.work
    }

    /// Records the size of the exact canonical delta, then checks the budget.
    pub fn observe_canonical(&mut self, canonical: &CanonicalDelta) -> (r: Result<(), Diagnostic>)
        ensures
            final(self).declared() == old(self).declared(),
            final(self).observed() == (ChangeBudgetWork {
                canonical_edits: CanonicalEditWork {
                    owner_edits: count_spec(canonical.owners@.len() as usize),
                    type_edits: count_spec(canonical.type_additions@.len() as usize),
                    dependency_edits: count_spec(canonical.dependencies@.len() as usize),
                    retirement_edits: count_spec(canonical.retirements@.len() as usize),
                },
                ..old(self).observed()
            }),
            r is Ok <==> within_budget(final(self).declared(), final(self).observed()),
            r matches Err(d) ==> d.class == DiagnosticClass::Resource
                && d.code@ == first_excess(observation_rows(final(self).declared(), final(self).observed())).unwrap().code_view(),
    {
        self.work.canonical_edits = CanonicalEditWork {
            owner_edits: count(canonical.owners.len()),
            type_edits: count(canonical.type_additions.len()),
            dependency_edits: count(canonical.dependencies.len()),
            retirement_edits: count(canonical.retirements.len()),
        };
        self.check("canonical delta")
    }

    /// Records the work of deriving the local witness delta, then checks the budget.
    pub fn observe_derived(&mut self, derived: &DerivedDelta) -> (r: Result<(), Diagnostic>)
        ensures
            final(self).declared() == old(self).declared(),
            final(self).observed() == (ChangeBudgetWork {
                witness_reads: old(self).observed().witness_reads.sum(derived.read_work),
                impact_ownership_steps: sat_add(old(self).observed().impact_ownership_steps, derived.ownership_steps),
                relation_edges: sat_add(old(self).observed().relation_edges, derived.relation_edges_examined),
                ..old(self).observed()
            }),
            r is Ok <==> within_budget(final(self).declared(), final(self).observed()),
            r matches Err(d) ==> d.class == DiagnosticClass::Resource
                && d.code@ == first_excess(observation_rows(final(self).declared(), final(self).observed())).unwrap().code_view(),
    {
        self.add_witness_reads(derived.read_work);
        self.work.impact_ownership_steps = self.work.impact_ownership_steps.saturating_add(derived.ownership_steps);
        self.add_relations(derived.relation_edges_examined);
        self.check("derived witness delta")
    }

    /// Records the work and frontier of an impact plan, then checks the budget.
    pub fn observe_impact(&mut self, impact: &ImpactPlan) -> (r: Result<(), Diagnostic>)
        ensures
            final(self).declared() == old(self).declared(),
            final(self).observed() == ({
                let w = old(self).observed();
                let affected = count_spec(impact_frontier(impact).len() as usize);
                let selected = count_spec(impact.tests@.len() as usize);
                ChangeBudgetWork {
                    affected_frontier_owners: if w.affected_frontier_owners < affected { affected } else { w.affected_frontier_owners },
                    impact_summary_owners: sat_add(w.impact_summary_owners, impact.work.summary_owners_examined),
                    impact_summary_edits: sat_add(w.impact_summary_edits, impact.work.summary_edits_examined),
                    tests: TestBudgetWork {
                        selected: if w.tests.selected < selected { selected } else { w.tests.selected },
                        ..w.tests
                    },
                    impact_ownership_steps: sat_add(w.impact_ownership_steps, impact.work.ownership_steps),
                    impact_behavior_owners: sat_add(w.impact_behavior_owners, impact.work.behavior_owners_visited),
                    relation_edges: sat_add(w.relation_edges, impact.work.reverse_edges_visited),
                    witness_reads: w.witness_reads.sum(impact.work.witness_reads),
                    ..w
                }
            }),
            r is Ok <==> within_budget(final(self).declared(), final(self).observed()),
            r matches Err(d) ==> d.class == DiagnosticClass::Resource
                && d.code@ == first_excess(observation_rows(final(self).declared(), final(self).observed())).unwrap().code_view(),
    {
        let affected = count(distinct_frontier(impact).len());
        if self.work.affected_frontier_owners < affected {
            self.work.affected_frontier_owners = affected;
        }
        self.work.impact_summary_owners = self.work.impact_summary_owners.saturating_add(impact.work.summary_owners_examined);
        self.work.impact_summary_edits = self.work.impact_summary_edits.saturating_add(impact.work.summary_edits_examined);
        let selected = count(impact.tests.len());
        if self.work.tests.selected < selected {
            self.work.tests.selected = selected;
        }
        self.work.impact_ownership_steps = self.work.impact_ownership_steps.saturating_add(impact.work.ownership_steps);
        self.work.impact_behavior_owners = self.work.impact_behavior_owners.saturating_add(impact.work.behavior_owners_visited);
        self.add_relations(impact.work.reverse_edges_visited);
        self.add_witness_reads(impact.work.witness_reads);
        self.check("impact planning")
    }

    /// Records the work of rebuilding owner summaries, then checks the budget.
    pub fn observe_summaries(&mut self, summaries: &PlannedSummaries) -> (r: Result<(), Diagnostic>)
        ensures
            final(self).declared() == old(self).declared(),
            final(self).observed() == (ChangeBudgetWork {
                witness_reads: old(self).observed().witness_reads.sum(summaries.initial.read_work).sum(summaries.final_delta.read_work),
                relation_edges: sat_add(
                    old(self).observed().relation_edges,
                    sat_add(summaries.initial.relation_edges_read, summaries.final_delta.relation_edges_read),
                ),
                ..old(self).observed()
            }),
            r is Ok <==> within_budget(final(self).declared(), final(self).observed()),
            r matches Err(d) ==> d.class == DiagnosticClass::Resource
                && d.code@ == first_excess(observation_rows(final(self).declared(), final(self).observed())).unwrap().code_view(),
    {
        self.add_witness_reads(summaries.initial.read_work);
        self.add_witness_reads(summaries.final_delta.read_work);
        self.add_relations(summaries.initial.relation_edges_read.saturating_add(summaries.final_delta.relation_edges_read));
        self.check("owner-summary rebuilding")
    }

    /// The test-dependency changes that still fit in the witness edit budget, two edits each,
    /// after the summary, namespace, ownership and relation edits.
    pub fn remaining_test_dependency_changes(&self, derived: &DerivedDelta, summaries: &SummaryDelta, phase: &str) -> (r: Result<u64, Diagnostic>)
        ensures
            ({
                let fixed = fixed_witness_edits(derived, summaries);
                let maximum = self.declared().witness_update.maximum_edits;
                &&& r is Ok <==> fixed <= maximum
                &&& r matches Ok(v) ==> v == (maximum - fixed) / 2
                &&& r matches Err(d) ==> d.class == DiagnosticClass::Resource && d.code@ == BudgetDimension::WitnessEdits.code_view()
            }),
    {
        let relation_pairs = count(derived.relations.removed.len()).saturating_add(count(derived.relations.added.len()));
        let relation_edits = if relation_pairs > u64::MAX / 2 { u64::MAX } else { relation_pairs * 2 };
        let fixed_edits = count(summaries.edits.len())
            .saturating_add(count(derived.namespaces.len()))
            .saturating_add(count(derived.ownership.len()))
            .saturating_add(relation_edits);
        let remaining = remaining_dimension(
            phase,
            BudgetDimension::WitnessEdits,
            fixed_edits,
            self.budget.witness_update.maximum_edits,
        )?;
        Ok(remaining / 2)
    }

    /// Records the work of structural validation: the owner records, ownership entries and type
    /// objects it checked and the witness reads it made. Then checks the budget.
    pub fn observe_structural(
        &mut self,
        owner_records_checked: u64,
        ownership_entries_checked: u64,
        type_objects_checked: u64,
        witness_reads: WitnessReadWork,
    ) -> (r: Result<(), Diagnostic>)
        ensures
            final(self).declared() == old(self).declared(),
            final(self).observed() == (ChangeBudgetWork {
                validation: ValidationBudgetWork {
                    owner_records: sat_add(old(self).observed().validation.owner_records, owner_records_checked),
                    ownership_entries: sat_add(old(self).observed().validation.ownership_entries, ownership_entries_checked),
                    type_objects: sat_add(old(self).observed().validation.type_objects, type_objects_checked),
                    ..old(self).observed().validation
                },
                witness_reads: old(self).observed().witness_reads.sum(witness_reads),
                ..old(self).observed()
            }),
            r is Ok <==> within_budget(final(self).declared(), final(self).observed()),
            r matches Err(d) ==> d.class == DiagnosticClass::Resource
                && d.code@ == first_excess(observation_rows(final(self).declared(), final(self).observed())).unwrap().code_view(),
    {
        self.work.validation.owner_records = self.work.validation.owner_records.saturating_add(owner_records_checked);
        self.work.validation.ownership_entries = self.work.validation.ownership_entries.saturating_add(
            ownership_entries_checked,
        );
        self.work.validation.type_objects = self.work.validation.type_objects.saturating_add(type_objects_checked);
        self.add_witness_reads(witness_reads);
        self.check("structural validation")
    }

    /// Records the work of test-dependency planning: how many tests it affected, the ownership
    /// steps, owners and relation edges it visited and the witness reads it made. The test work
    /// replaces what was recorded before, keeping the largest selection. Then checks the budget.
    pub fn observe_tests(
        &mut self,
        affected_tests: usize,
        ownership_steps: u64,
        owners_visited: u64,
        relation_edges_visited: u64,
        witness_reads: WitnessReadWork,
    ) -> (r: Result<(), Diagnostic>)
        ensures
            final(self).declared() == old(self).declared(),
            final(self).observed() == (ChangeBudgetWork {
                tests: TestBudgetWork {
                    selected: if old(self).observed().tests.selected >= count_spec(affected_tests) {
                        old(self).observed().tests.selected
                    } else {
                        count_spec(affected_tests)
                    },
                    ownership_steps,
                    owners_visited,
                },
                relation_edges: sat_add(old(self).observed().relation_edges, relation_edges_visited),
                witness_reads: old(self).observed().witness_reads.sum(witness_reads),
                ..old(self).observed()
            }),
            r is Ok <==> within_budget(final(self).declared(), final(self).observed()),
            r matches Err(d) ==> d.class == DiagnosticClass::Resource
                && d.code@ == first_excess(observation_rows(final(self).declared(), final(self).observed())).unwrap().code_view(),
    {
        let affected = count(affected_tests);
        let selected = if self.work.tests.selected >= affected { self.work.tests.selected } else { affected };
        self.work.tests = TestBudgetWork { selected, ownership_steps, owners_visited };
        self.add_relations(relation_edges_visited);
        self.add_witness_reads(witness_reads);
        self.check("test dependency planning")
    }

    /// Checks, before the witness maps are updated, that every witness edit the change needs fits
    /// the declared edit budget: the summary, namespace and ownership edits, and two for each
    /// relation and test-dependency edge removed or added.
    pub fn preflight_witness_edits(
        &self,
        derived: &DerivedDelta,
        summaries: &SummaryDelta,
        tests_removed: usize,
        tests_added: usize,
    ) -> (r: Result<(), Diagnostic>)
        ensures
            r is Ok <==> witness_edits_needed(derived, summaries, tests_removed, tests_added)
                <= self.declared().witness_update.maximum_edits,
            r matches Err(d) ==> d.class == DiagnosticClass::Resource && d.code@ == BudgetDimension::WitnessEdits.code_view(),
    {
        let relation_pairs = count(derived.relations.removed.len()).saturating_add(count(derived.relations.added.len()));
        let relation_edits = if relation_pairs > u64::MAX / 2 { u64::MAX } else { relation_pairs * 2 };
        let test_pairs = count(tests_removed).saturating_add(count(tests_added));
        let test_edits = if test_pairs > u64::MAX / 2 { u64::MAX } else { test_pairs * 2 };
        let edits = count(summaries.edits.len())
            .saturating_add(count(derived.namespaces.len()))
            .saturating_add(count(derived.ownership.len()))
            .saturating_add(relation_edits)
            .saturating_add(test_edits);
        check_dimension(
            "witness map update",
            BudgetDimension::WitnessEdits,
            edits,
            self.budget.witness_update.maximum_edits,
        )
    }

    /// Records a witness map update: the map entries it inserted, replaced, removed and left
    /// unchanged, the pages and bytes it encoded, and the witness reads it made. The update work
    /// replaces what was recorded before. Then checks the budget.
    pub fn observe_witness(
        &mut self,
        inserted: u64,
        replaced: u64,
        removed: u64,
        unchanged: u64,
        pages_encoded: u64,
        bytes_encoded: u64,
        read_work: WitnessReadWork,
    ) -> (r: Result<(), Diagnostic>)
        ensures
            final(self).declared() == old(self).declared(),
            final(self).observed() == (ChangeBudgetWork {
                witness_update: WitnessUpdateWork {
                    edits: sat_add(sat_add(sat_add(inserted, replaced), removed), unchanged),
                    pages_encoded,
                    bytes_encoded,
                },
                witness_reads: old(self).observed().witness_reads.sum(read_work),
                ..old(self).observed()
            }),
            r is Ok <==> within_budget(final(self).declared(), final(self).observed()),
            r matches Err(d) ==> d.class == DiagnosticClass::Resource
                && d.code@ == first_excess(observation_rows(final(self).declared(), final(self).observed())).unwrap().code_view(),
    {
        self.work.witness_update = WitnessUpdateWork {
            edits: inserted.saturating_add(replaced).saturating_add(removed).saturating_add(unchanged),
            pages_encoded,
            bytes_encoded,
        };
        self.add_witness_reads(read_work);
        self.check("witness map update")
    }

    fn add_witness_reads(&mut self, reads: WitnessReadWork)
        ensures
            final(self).declared() == old(self).declared(),
            final(self).observed() == (ChangeBudgetWork {
                witness_reads: old(self).observed().witness_reads.sum(reads),
                ..old(self).observed()
            }),
    {
        self.work.witness_reads.add(reads);
    }

    fn add_relations(&mut self, edges: u64)
        ensures
            final(self).declared() == old(self).declared(),
            final(self).observed() == (ChangeBudgetWork {
                relation_edges: sat_add(old(self).observed().relation_edges, edges),
                ..old(self).observed()
            }),
    {
        self.work.relation_edges = self.work.relation_edges.saturating_add(edges);
    }
}


/// The default budget declares every maximum within its engine ceiling.
pub proof fn lemma_default_budget_is_valid()
    ensures
        ChangeBudget::spec_default().is_valid(),
{
    let rows = ChangeBudget::spec_default().declared_maxima();
    assert forall|i: int| 0 <= i < rows.len() implies rows[i].1 <= rows[i].2 by {}
    lemma_first_excess_none(rows);
}

/// Observing no work at all fits within every budget.
pub proof fn lemma_zero_work_within_every_budget(budget: ChangeBudget)
    ensures
        within_budget(budget, ChangeBudgetWork::zero()),
{
    let rows = observation_rows(budget, ChangeBudgetWork::zero());
    assert forall|i: int| 0 <= i < rows.len() implies rows[i].1 <= rows[i].2 by {}
    lemma_first_excess_none(rows);
}


/// Saturating product of a counter by two.
pub open spec fn sat_double(value: u64) -> u64 {
    if value * 2 > u64::MAX { u64::MAX } else { (value * 2) as u64 }
}

/// Every witness edit a change needs: the fixed edits, and two for each test-dependency edge
/// removed or added.
pub open spec fn witness_edits_needed(derived: &DerivedDelta, summaries: &SummaryDelta, tests_removed: usize, tests_added: usize) -> u64 {
    sat_add(fixed_witness_edits(derived, summaries), sat_double(sat_add(count_spec(tests_removed), count_spec(tests_added))))
}

/// The witness edits a change needs before any test-dependency edit.
pub open spec fn fixed_witness_edits(derived: &DerivedDelta, summaries: &SummaryDelta) -> u64 {
    let relation_edits = sat_double(sat_add(
        count_spec(derived.relations.removed@.len() as usize),
        count_spec(derived.relations.added@.len() as usize),
    ));
    sat_add(
        sat_add(
            sat_add(count_spec(summaries.edits@.len() as usize), count_spec(derived.namespaces@.len() as usize)),
            count_spec(derived.ownership@.len() as usize),
        ),
        relation_edits,
    )
}

/// Every owner an impact plan touches, as a set.
pub open spec fn impact_frontier(impact: &ImpactPlan) -> Set<OwnerKey> {
    (impact.structurally_checked@ + impact.semantically_checked@ + impact.summary_owners@
        + impact.compiler_units@ + impact.tests@).to_set()
}

/// Every owner an impact plan touches, each once.
fn distinct_frontier(impact: &ImpactPlan) -> (r: Vec<OwnerKey>)
    ensures
        r@.no_duplicates(),
        r@.to_set() == impact_frontier(impact),
        r@.len() == impact_frontier(impact).len(),
{
    let ghost all = impact.structurally_checked@ + impact.semantically_checked@ + impact.summary_owners@
        + impact.compiler_units@ + impact.tests@;
    let mut owners: Vec<OwnerKey> = Vec::new();
    let ghost mut seen: Seq<OwnerKey> = Seq::empty();
    append_distinct(&mut owners, &impact.structurally_checked, Ghost(seen));
    proof { seen = seen + impact.structurally_checked@; }
    append_distinct(&mut owners, &impact.semantically_checked, Ghost(seen));
    proof { seen = seen + impact.semantically_checked@; }
    append_distinct(&mut owners, &impact.summary_owners, Ghost(seen));
    proof { seen = seen + impact.summary_owners@; }
    append_distinct(&mut owners, &impact.compiler_units, Ghost(seen));
    proof { seen = seen + impact.compiler_units@; }
    append_distinct(&mut owners, &impact.tests, Ghost(seen));
    proof {
        seen = seen + impact.tests@;
        assert(seen =~= all);
        owners@.unique_seq_to_set();
    }
    owners
}

/// Appends each owner of `more` that `owners` lacks.
fn append_distinct(owners: &mut Vec<OwnerKey>, more: &Vec<OwnerKey>, Ghost(seen): Ghost<Seq<OwnerKey>>)
    requires
        old(owners)@.no_duplicates(),
        old(owners)@.to_set() == seen.to_set(),
    ensures
        final(owners)@.no_duplicates(),
        final(owners)@.to_set() == (seen + more@).to_set(),
{
    let mut i: usize = 0;
    while i < more.len()
        invariant
            i <= more@.len(),
            owners@.no_duplicates(),
            owners@.to_set() == (seen + more@.take(i as int)).to_set(),
        decreases more@.len() - i,
    {
        let owner = more[i];
        let mut present = false;
        let mut j: usize = 0;
        while j < owners.len()
            invariant
                j <= owners@.len(),
                present == (exists|k: int| 0 <= k < j && owners@[k] == owner),
            decreases owners@.len() - j,
        {
            if owners[j] == owner {
                present = true;
            }
            j = j + 1;
        }
        let ghost before = owners@;
        let ghost prev = seen + more@.take(i as int);
        if !present {
            owners.push(owner);
        }
        proof {
            assert(seen + more@.take(i + 1) =~= prev.push(owner));
            assert forall|x: OwnerKey| #[trigger] owners@.contains(x) <==> prev.push(owner).contains(x) by {
                vstd::seq_lib::lemma_seq_contains_after_push(prev, owner, x);
                vstd::seq_lib::lemma_seq_contains_after_push(before, owner, x);
                assert(before.to_set().contains(x) == prev.to_set().contains(x));
            }
            assert(owners@.to_set() =~= prev.push(owner).to_set());
        }
        i = i + 1;
    }
    assert(more@.take(more@.len() as int) =~= more@);
}

} // verus!
