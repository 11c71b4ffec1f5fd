//! The named dimensions of a change budget and their stable diagnostic codes.

use vstd::prelude::*;

verus! {

/// One independently admitted dimension of a change budget.
#[derive(Clone, Copy, Debug, PartialEq, Eq, Structural)]
pub enum BudgetDimension {
    Operations,
    Preconditions,
    AllocatedIdentities,
    AuthoredTypeNodes,
    CanonicalOwnerEdits,
    CanonicalTypeEdits,
    CanonicalDependencyEdits,
    CanonicalRetirementEdits,
    CanonicalPointReads,
    CanonicalMapPages,
    CanonicalMapEntries,
    CanonicalCatalogLookups,
    CanonicalObjects,
    CanonicalBytes,
    CanonicalDecodedRecords,
    CanonicalMapPagesEncoded,
    CanonicalMapBytesEncoded,
    WitnessPointReads,
    WitnessMapPages,
    WitnessMapEntries,
    WitnessCatalogLookups,
    WitnessObjects,
    WitnessBytes,
    WitnessDecodedRecords,
    AffectedFrontierOwners,
    ImpactSummaryOwners,
    ImpactSummaryEdits,
    ImpactOwnershipSteps,
    ImpactBehaviorOwners,
    RelationEdges,
    RelationFanout,
    ValidationOwnerRecords,
    ValidationOwnershipEntries,
    ValidationTypeObjects,
    ValidationExpressionSteps,
    ValidationDiagnostics,
    TestsSelected,
    TestDependenciesPerTest,
    TestOwnershipSteps,
    TestOwnersVisited,
    WitnessEdits,
    WitnessMapPagesEncoded,
    WitnessMapBytesEncoded,
    StagedObjects,
    StagedBytes,
    StagedPages,
}

impl BudgetDimension {
    /// The stable diagnostic code of this dimension, as text.
    pub open spec fn code_view(self) -> Seq<char> {
        match self {
            BudgetDimension::Operations => "change_budget_operations"@,
            BudgetDimension::Preconditions => "change_budget_preconditions"@,
            BudgetDimension::AllocatedIdentities => "change_budget_allocated_identities"@,
            BudgetDimension::AuthoredTypeNodes => "change_budget_authored_type_nodes"@,
            BudgetDimension::CanonicalOwnerEdits => "change_budget_canonical_owner_edits"@,
            BudgetDimension::CanonicalTypeEdits => "change_budget_canonical_type_edits"@,
            BudgetDimension::CanonicalDependencyEdits => "change_budget_canonical_dependency_edits"@,
            BudgetDimension::CanonicalRetirementEdits => "change_budget_canonical_retirement_edits"@,
            BudgetDimension::CanonicalPointReads => "change_budget_canonical_point_reads"@,
            BudgetDimension::CanonicalMapPages => "change_budget_canonical_map_pages"@,
            BudgetDimension::CanonicalMapEntries => "change_budget_canonical_map_entries"@,
            BudgetDimension::CanonicalCatalogLookups => "change_budget_canonical_catalog_lookups"@,
            BudgetDimension::CanonicalObjects => "change_budget_canonical_objects"@,
            BudgetDimension::CanonicalBytes => "change_budget_canonical_bytes"@,
            BudgetDimension::CanonicalDecodedRecords => "change_budget_canonical_decoded_records"@,
            BudgetDimension::CanonicalMapPagesEncoded => "change_budget_canonical_map_pages_encoded"@,
            BudgetDimension::CanonicalMapBytesEncoded => "change_budget_canonical_map_bytes_encoded"@,
            BudgetDimension::WitnessPointReads => "change_budget_witness_point_reads"@,
            BudgetDimension::WitnessMapPages => "change_budget_witness_map_pages"@,
            BudgetDimension::WitnessMapEntries => "change_budget_witness_map_entries"@,
            BudgetDimension::WitnessCatalogLookups => "change_budget_witness_catalog_lookups"@,
            BudgetDimension::WitnessObjects => "change_budget_witness_objects"@,
            BudgetDimension::WitnessBytes => "change_budget_witness_bytes"@,
            BudgetDimension::WitnessDecodedRecords => "change_budget_witness_decoded_records"@,
            BudgetDimension::AffectedFrontierOwners => "change_budget_affected_frontier_owners"@,
            BudgetDimension::ImpactSummaryOwners => "change_budget_impact_summary_owners"@,
            BudgetDimension::ImpactSummaryEdits => "change_budget_impact_summary_edits"@,
            BudgetDimension::ImpactOwnershipSteps => "change_budget_impact_ownership_steps"@,
            BudgetDimension::ImpactBehaviorOwners => "change_budget_impact_behavior_owners"@,
            BudgetDimension::RelationEdges => "change_budget_relation_edges"@,
            BudgetDimension::RelationFanout => "change_budget_relation_fanout"@,
            BudgetDimension::ValidationOwnerRecords => "change_budget_validation_owner_records"@,
            BudgetDimension::ValidationOwnershipEntries => "change_budget_validation_ownership_entries"@,
            BudgetDimension::ValidationTypeObjects => "change_budget_validation_type_objects"@,
            BudgetDimension::ValidationExpressionSteps => "change_budget_validation_expression_steps"@,
            BudgetDimension::ValidationDiagnostics => "change_budget_validation_diagnostics"@,
            BudgetDimension::TestsSelected => "change_budget_tests_selected"@,
            BudgetDimension::TestDependenciesPerTest => "change_budget_test_dependencies_per_test"@,
            BudgetDimension::TestOwnershipSteps => "change_budget_test_ownership_steps"@,
            BudgetDimension::TestOwnersVisited => "change_budget_test_owners_visited"@,
            BudgetDimension::WitnessEdits => "change_budget_witness_edits"@,
            BudgetDimension::WitnessMapPagesEncoded => "change_budget_witness_map_pages_encoded"@,
            BudgetDimension::WitnessMapBytesEncoded => "change_budget_witness_map_bytes_encoded"@,
            BudgetDimension::StagedObjects => "change_budget_staged_objects"@,
            BudgetDimension::StagedBytes => "change_budget_staged_bytes"@,
            BudgetDimension::StagedPages => "change_budget_staged_pages"@,
        }
    }

    /// The dimension's name, as text.
    pub open spec fn name_view(self) -> Seq<char> {
        match self {
            BudgetDimension::Operations => "operations"@,
            BudgetDimension::Preconditions => "preconditions"@,
            BudgetDimension::AllocatedIdentities => "allocated_identities"@,
            BudgetDimension::AuthoredTypeNodes => "authored_type_nodes"@,
            BudgetDimension::CanonicalOwnerEdits => "canonical_owner_edits"@,
            BudgetDimension::CanonicalTypeEdits => "canonical_type_edits"@,
            BudgetDimension::CanonicalDependencyEdits => "canonical_dependency_edits"@,
            BudgetDimension::CanonicalRetirementEdits => "canonical_retirement_edits"@,
            BudgetDimension::CanonicalPointReads => "canonical_point_reads"@,
            BudgetDimension::CanonicalMapPages => "canonical_map_pages"@,
            BudgetDimension::CanonicalMapEntries => "canonical_map_entries"@,
            BudgetDimension::CanonicalCatalogLookups => "canonical_catalog_lookups"@,
            BudgetDimension::CanonicalObjects => "canonical_objects"@,
            BudgetDimension::CanonicalBytes => "canonical_bytes"@,
            BudgetDimension::CanonicalDecodedRecords => "canonical_decoded_records"@,
            BudgetDimension::CanonicalMapPagesEncoded => "canonical_map_pages_encoded"@,
            BudgetDimension::CanonicalMapBytesEncoded => "canonical_map_bytes_encoded"@,
            BudgetDimension::WitnessPointReads => "witness_point_reads"@,
            BudgetDimension::WitnessMapPages => "witness_map_pages"@,
            BudgetDimension::WitnessMapEntries => "witness_map_entries"@,
            BudgetDimension::WitnessCatalogLookups => "witness_catalog_lookups"@,
            BudgetDimension::WitnessObjects => "witness_objects"@,
            BudgetDimension::WitnessBytes => "witness_bytes"@,
            BudgetDimension::WitnessDecodedRecords => "witness_decoded_records"@,
            BudgetDimension::AffectedFrontierOwners => "affected_frontier_owners"@,
            BudgetDimension::ImpactSummaryOwners => "impact_summary_owners"@,
            BudgetDimension::ImpactSummaryEdits => "impact_summary_edits"@,
            BudgetDimension::ImpactOwnershipSteps => "impact_ownership_steps"@,
            BudgetDimension::ImpactBehaviorOwners => "impact_behavior_owners"@,
            BudgetDimension::RelationEdges => "relation_edges"@,
            BudgetDimension::RelationFanout => "relation_fanout"@,
            BudgetDimension::ValidationOwnerRecords => "validation_owner_records"@,
            BudgetDimension::ValidationOwnershipEntries => "validation_ownership_entries"@,
            BudgetDimension::ValidationTypeObjects => "validation_type_objects"@,
            BudgetDimension::ValidationExpressionSteps => "validation_expression_steps"@,
            BudgetDimension::ValidationDiagnostics => "validation_diagnostics"@,
            BudgetDimension::TestsSelected => "tests_selected"@,
            BudgetDimension::TestDependenciesPerTest => "test_dependencies_per_test"@,
            BudgetDimension::TestOwnershipSteps => "test_ownership_steps"@,
            BudgetDimension::TestOwnersVisited => "test_owners_visited"@,
            BudgetDimension::WitnessEdits => "witness_edits"@,
            BudgetDimension::WitnessMapPagesEncoded => "witness_map_pages_encoded"@,
            BudgetDimension::WitnessMapBytesEncoded => "witness_map_bytes_encoded"@,
            BudgetDimension::StagedObjects => "staged_objects"@,
            BudgetDimension::StagedBytes => "staged_bytes"@,
            BudgetDimension::StagedPages => "staged_pages"@,
        }
    }

    /// The stable diagnostic code of this dimension.
    pub fn code(self) -> (r: &'static str)
        ensures
            r@ == self.code_view(),
    {
        match self {
            BudgetDimension::Operations => "change_budget_operations",
            BudgetDimension::Preconditions => "change_budget_preconditions",
            BudgetDimension::AllocatedIdentities => "change_budget_allocated_identities",
            BudgetDimension::AuthoredTypeNodes => "change_budget_authored_type_nodes",
            BudgetDimension::CanonicalOwnerEdits => "change_budget_canonical_owner_edits",
            BudgetDimension::CanonicalTypeEdits => "change_budget_canonical_type_edits",
            BudgetDimension::CanonicalDependencyEdits => "change_budget_canonical_dependency_edits",
            BudgetDimension::CanonicalRetirementEdits => "change_budget_canonical_retirement_edits",
            BudgetDimension::CanonicalPointReads => "change_budget_canonical_point_reads",
            BudgetDimension::CanonicalMapPages => "change_budget_canonical_map_pages",
            BudgetDimension::CanonicalMapEntries => "change_budget_canonical_map_entries",
            BudgetDimension::CanonicalCatalogLookups => "change_budget_canonical_catalog_lookups",
            BudgetDimension::CanonicalObjects => "change_budget_canonical_objects",
            BudgetDimension::CanonicalBytes => "change_budget_canonical_bytes",
            BudgetDimension::CanonicalDecodedRecords => "change_budget_canonical_decoded_records",
            BudgetDimension::CanonicalMapPagesEncoded => "change_budget_canonical_map_pages_encoded",
            BudgetDimension::CanonicalMapBytesEncoded => "change_budget_canonical_map_bytes_encoded",
            BudgetDimension::WitnessPointReads => "change_budget_witness_point_reads",
            BudgetDimension::WitnessMapPages => "change_budget_witness_map_pages",
            BudgetDimension::WitnessMapEntries => "change_budget_witness_map_entries",
            BudgetDimension::WitnessCatalogLookups => "change_budget_witness_catalog_lookups",
            BudgetDimension::WitnessObjects => "change_budget_witness_objects",
            BudgetDimension::WitnessBytes => "change_budget_witness_bytes",
            BudgetDimension::WitnessDecodedRecords => "change_budget_witness_decoded_records",
            BudgetDimension::AffectedFrontierOwners => "change_budget_affected_frontier_owners",
            BudgetDimension::ImpactSummaryOwners => "change_budget_impact_summary_owners",
            BudgetDimension::ImpactSummaryEdits => "change_budget_impact_summary_edits",
            BudgetDimension::ImpactOwnershipSteps => "change_budget_impact_ownership_steps",
            BudgetDimension::ImpactBehaviorOwners => "change_budget_impact_behavior_owners",
            BudgetDimension::RelationEdges => "change_budget_relation_edges",
            BudgetDimension::RelationFanout => "change_budget_relation_fanout",
            BudgetDimension::ValidationOwnerRecords => "change_budget_validation_owner_records",
            BudgetDimension::ValidationOwnershipEntries => "change_budget_validation_ownership_entries",
            BudgetDimension::ValidationTypeObjects => "change_budget_validation_type_objects",
            BudgetDimension::ValidationExpressionSteps => "change_budget_validation_expression_steps",
            BudgetDimension::ValidationDiagnostics => "change_budget_validation_diagnostics",
            BudgetDimension::TestsSelected => "change_budget_tests_selected",
            BudgetDimension::TestDependenciesPerTest => "change_budget_test_dependencies_per_test",
            BudgetDimension::TestOwnershipSteps => "change_budget_test_ownership_steps",
            BudgetDimension::TestOwnersVisited => "change_budget_test_owners_visited",
            BudgetDimension::WitnessEdits => "change_budget_witness_edits",
            BudgetDimension::WitnessMapPagesEncoded => "change_budget_witness_map_pages_encoded",
            BudgetDimension::WitnessMapBytesEncoded => "change_budget_witness_map_bytes_encoded",
            BudgetDimension::StagedObjects => "change_budget_staged_objects",
            BudgetDimension::StagedBytes => "change_budget_staged_bytes",
            BudgetDimension::StagedPages => "change_budget_staged_pages",
        }
    }

    /// The dimension's name as it appears in messages.
    pub fn name(self) -> (r: &'static str)
        ensures
            r@ == self.name_view(),
    {
        match self {
            BudgetDimension::Operations => "operations",
            BudgetDimension::Preconditions => "preconditions",
            BudgetDimension::AllocatedIdentities => "allocated_identities",
            BudgetDimension::AuthoredTypeNodes => "authored_type_nodes",
            BudgetDimension::CanonicalOwnerEdits => "canonical_owner_edits",
            BudgetDimension::CanonicalTypeEdits => "canonical_type_edits",
            BudgetDimension::CanonicalDependencyEdits => "canonical_dependency_edits",
            BudgetDimension::CanonicalRetirementEdits => "canonical_retirement_edits",
            BudgetDimension::CanonicalPointReads => "canonical_point_reads",
            BudgetDimension::CanonicalMapPages => "canonical_map_pages",
            BudgetDimension::CanonicalMapEntries => "canonical_map_entries",
            BudgetDimension::CanonicalCatalogLookups => "canonical_catalog_lookups",
            BudgetDimension::CanonicalObjects => "canonical_objects",
            BudgetDimension::CanonicalBytes => "canonical_bytes",
            BudgetDimension::CanonicalDecodedRecords => "canonical_decoded_records",
            BudgetDimension::CanonicalMapPagesEncoded => "canonical_map_pages_encoded",
            BudgetDimension::CanonicalMapBytesEncoded => "canonical_map_bytes_encoded",
            BudgetDimension::WitnessPointReads => "witness_point_reads",
            BudgetDimension::WitnessMapPages => "witness_map_pages",
            BudgetDimension::WitnessMapEntries => "witness_map_entries",
            BudgetDimension::WitnessCatalogLookups => "witness_catalog_lookups",
            BudgetDimension::WitnessObjects => "witness_objects",
            BudgetDimension::WitnessBytes => "witness_bytes",
            BudgetDimension::WitnessDecodedRecords => "witness_decoded_records",
            BudgetDimension::AffectedFrontierOwners => "affected_frontier_owners",
            BudgetDimension::ImpactSummaryOwners => "impact_summary_owners",
            BudgetDimension::ImpactSummaryEdits => "impact_summary_edits",
            BudgetDimension::ImpactOwnershipSteps => "impact_ownership_steps",
            BudgetDimension::ImpactBehaviorOwners => "impact_behavior_owners",
            BudgetDimension::RelationEdges => "relation_edges",
            BudgetDimension::RelationFanout => "relation_fanout",
            BudgetDimension::ValidationOwnerRecords => "validation_owner_records",
            BudgetDimension::ValidationOwnershipEntries => "validation_ownership_entries",
            BudgetDimension::ValidationTypeObjects => "validation_type_objects",
            BudgetDimension::ValidationExpressionSteps => "validation_expression_steps",
            BudgetDimension::ValidationDiagnostics => "validation_diagnostics",
            BudgetDimension::TestsSelected => "tests_selected",
            BudgetDimension::TestDependenciesPerTest => "test_dependencies_per_test",
            BudgetDimension::TestOwnershipSteps => "test_ownership_steps",
            BudgetDimension::TestOwnersVisited => "test_owners_visited",
            BudgetDimension::WitnessEdits => "witness_edits",
            BudgetDimension::WitnessMapPagesEncoded => "witness_map_pages_encoded",
            BudgetDimension::WitnessMapBytesEncoded => "witness_map_bytes_encoded",
            BudgetDimension::StagedObjects => "staged_objects",
            BudgetDimension::StagedBytes => "staged_bytes",
            BudgetDimension::StagedPages => "staged_pages",
        }
    }
}

} // verus!
