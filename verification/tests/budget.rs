use lkjscript_platform::budget::{ChangeBudget, ChangeBudgetWork};

type Exhaustion = fn(&mut ChangeBudget, &mut ChangeBudgetWork);
type InvalidMaximum = fn(&mut ChangeBudget);

#[test]
fn every_admission_dimension_has_an_independent_diagnostic() {
    let cases: &[(Exhaustion, &str)] = &[
        (
            |budget, work| {
                budget.authored.maximum_operations = 1;
                work.authored_operations = 2;
            },
            "change_budget_operations",
        ),
        (
            |budget, work| {
                budget.authored.maximum_preconditions = 0;
                work.preconditions_checked = 1;
            },
            "change_budget_preconditions",
        ),
        (
            |budget, work| {
                budget.authored.maximum_allocated_identities = 0;
                work.allocated_identities = 1;
            },
            "change_budget_allocated_identities",
        ),
        (
            |budget, work| {
                budget.authored.maximum_type_nodes = 0;
                work.authored_type_nodes = 1;
            },
            "change_budget_authored_type_nodes",
        ),
        (
            |budget, work| {
                budget.canonical_edits.maximum_owner_edits = 0;
                work.canonical_edits.owner_edits = 1;
            },
            "change_budget_canonical_owner_edits",
        ),
        (
            |budget, work| {
                budget.canonical_edits.maximum_type_edits = 0;
                work.canonical_edits.type_edits = 1;
            },
            "change_budget_canonical_type_edits",
        ),
        (
            |budget, work| {
                budget.canonical_edits.maximum_dependency_edits = 0;
                work.canonical_edits.dependency_edits = 1;
            },
            "change_budget_canonical_dependency_edits",
        ),
        (
            |budget, work| {
                budget.canonical_edits.maximum_retirement_edits = 0;
                work.canonical_edits.retirement_edits = 1;
            },
            "change_budget_canonical_retirement_edits",
        ),
        (
            |budget, work| {
                budget.canonical_reads.maximum_point_reads = 0;
                work.canonical_reads.point_reads = 1;
            },
            "change_budget_canonical_point_reads",
        ),
        (
            |budget, work| {
                budget.canonical_reads.maximum_map_pages = 0;
                work.canonical_reads.map_pages_read = 1;
            },
            "change_budget_canonical_map_pages",
        ),
        (
            |budget, work| {
                budget.canonical_reads.maximum_map_entries = 0;
                work.canonical_reads.map_entries_visited = 1;
            },
            "change_budget_canonical_map_entries",
        ),
        (
            |budget, work| {
                budget.canonical_reads.maximum_catalog_lookups = 0;
                work.canonical_reads.catalog_lookups = 1;
            },
            "change_budget_canonical_catalog_lookups",
        ),
        (
            |budget, work| {
                budget.canonical_reads.maximum_objects = 0;
                work.canonical_reads.objects_read = 1;
            },
            "change_budget_canonical_objects",
        ),
        (
            |budget, work| {
                budget.canonical_reads.maximum_bytes = 0;
                work.canonical_reads.bytes_read = 1;
            },
            "change_budget_canonical_bytes",
        ),
        (
            |budget, work| {
                budget.canonical_reads.maximum_decoded_records = 0;
                work.canonical_reads.canonical_records_decoded = 1;
            },
            "change_budget_canonical_decoded_records",
        ),
        (
            |budget, work| {
                budget.canonical_map_update.maximum_pages_encoded = 0;
                work.canonical_map_update.pages_encoded = 1;
            },
            "change_budget_canonical_map_pages_encoded",
        ),
        (
            |budget, work| {
                budget.canonical_map_update.maximum_bytes_encoded = 0;
                work.canonical_map_update.bytes_encoded = 1;
            },
            "change_budget_canonical_map_bytes_encoded",
        ),
        (
            |budget, work| {
                budget.witness_reads.maximum_point_reads = 0;
                work.witness_reads.point_reads = 1;
            },
            "change_budget_witness_point_reads",
        ),
        (
            |budget, work| {
                budget.witness_reads.maximum_map_pages = 0;
                work.witness_reads.map_pages_read = 1;
            },
            "change_budget_witness_map_pages",
        ),
        (
            |budget, work| {
                budget.witness_reads.maximum_map_entries = 0;
                work.witness_reads.map_entries_visited = 1;
            },
            "change_budget_witness_map_entries",
        ),
        (
            |budget, work| {
                budget.witness_reads.maximum_catalog_lookups = 0;
                work.witness_reads.catalog_lookups = 1;
            },
            "change_budget_witness_catalog_lookups",
        ),
        (
            |budget, work| {
                budget.witness_reads.maximum_objects = 0;
                work.witness_reads.objects_read = 1;
            },
            "change_budget_witness_objects",
        ),
        (
            |budget, work| {
                budget.witness_reads.maximum_bytes = 0;
                work.witness_reads.bytes_read = 1;
            },
            "change_budget_witness_bytes",
        ),
        (
            |budget, work| {
                budget.witness_reads.maximum_decoded_records = 0;
                work.witness_reads.witness_records_decoded = 1;
            },
            "change_budget_witness_decoded_records",
        ),
        (
            |budget, work| {
                budget.impact.maximum_affected_owners = 0;
                work.affected_frontier_owners = 1;
            },
            "change_budget_affected_frontier_owners",
        ),
        (
            |budget, work| {
                budget.impact.maximum_summary_owners = 0;
                work.impact_summary_owners = 1;
            },
            "change_budget_impact_summary_owners",
        ),
        (
            |budget, work| {
                budget.impact.maximum_summary_edits = 0;
                work.impact_summary_edits = 1;
            },
            "change_budget_impact_summary_edits",
        ),
        (
            |budget, work| {
                budget.impact.maximum_ownership_steps = 0;
                work.impact_ownership_steps = 1;
            },
            "change_budget_impact_ownership_steps",
        ),
        (
            |budget, work| {
                budget.impact.maximum_behavior_owners = 0;
                work.impact_behavior_owners = 1;
            },
            "change_budget_impact_behavior_owners",
        ),
        (
            |budget, work| {
                budget.impact.maximum_relation_edges = 0;
                work.relation_edges = 1;
            },
            "change_budget_relation_edges",
        ),
        (
            |budget, work| {
                budget.validation.maximum_owner_records = 0;
                work.validation.owner_records = 1;
            },
            "change_budget_validation_owner_records",
        ),
        (
            |budget, work| {
                budget.validation.maximum_ownership_entries = 0;
                work.validation.ownership_entries = 1;
            },
            "change_budget_validation_ownership_entries",
        ),
        (
            |budget, work| {
                budget.validation.maximum_type_objects = 0;
                work.validation.type_objects = 1;
            },
            "change_budget_validation_type_objects",
        ),
        (
            |budget, work| {
                budget.validation.maximum_expression_steps = 0;
                work.validation.expression_steps = 1;
            },
            "change_budget_validation_expression_steps",
        ),
        (
            |budget, work| {
                budget.validation.maximum_diagnostics = 0;
                work.validation.diagnostics = 1;
            },
            "change_budget_validation_diagnostics",
        ),
        (
            |budget, work| {
                budget.tests.maximum_selected = 0;
                work.tests.selected = 1;
            },
            "change_budget_tests_selected",
        ),
        (
            |budget, work| {
                budget.tests.maximum_ownership_steps = 0;
                work.tests.ownership_steps = 1;
            },
            "change_budget_test_ownership_steps",
        ),
        (
            |budget, work| {
                budget.tests.maximum_owners_visited = 0;
                work.tests.owners_visited = 1;
            },
            "change_budget_test_owners_visited",
        ),
        (
            |budget, work| {
                budget.witness_update.maximum_edits = 0;
                work.witness_update.edits = 1;
            },
            "change_budget_witness_edits",
        ),
        (
            |budget, work| {
                budget.witness_update.maximum_pages_encoded = 0;
                work.witness_update.pages_encoded = 1;
            },
            "change_budget_witness_map_pages_encoded",
        ),
        (
            |budget, work| {
                budget.witness_update.maximum_bytes_encoded = 0;
                work.witness_update.bytes_encoded = 1;
            },
            "change_budget_witness_map_bytes_encoded",
        ),
        (
            |budget, work| {
                budget.staging.maximum_objects = 0;
                work.staging.objects = 1;
            },
            "change_budget_staged_objects",
        ),
        (
            |budget, work| {
                budget.staging.maximum_bytes = 0;
                work.staging.bytes = 1;
            },
            "change_budget_staged_bytes",
        ),
        (
            |budget, work| {
                budget.staging.maximum_pages = 0;
                work.staging.pages = 1;
            },
            "change_budget_staged_pages",
        ),
    ];

    for (exhaust, expected) in cases {
        let mut budget = ChangeBudget::default();
        let mut work = ChangeBudgetWork::default();
        exhaust(&mut budget, &mut work);
        let error = budget
            .check_observed(work, "independent admission test")
            .expect_err("one dimension must be exhausted independently");
        assert_eq!(error.code, *expected);
    }
}

#[test]
fn every_declared_maximum_rejects_values_above_its_engine_ceiling() {
    let cases: &[(InvalidMaximum, &str)] = &[
        (
            |budget| budget.authored.maximum_operations = u64::MAX,
            "change_budget_invalid_operations",
        ),
        (
            |budget| budget.authored.maximum_preconditions = u64::MAX,
            "change_budget_preconditions",
        ),
        (
            |budget| budget.authored.maximum_allocated_identities = u64::MAX,
            "change_budget_allocated_identities",
        ),
        (
            |budget| budget.authored.maximum_type_nodes = u64::MAX,
            "change_budget_authored_type_nodes",
        ),
        (
            |budget| budget.canonical_edits.maximum_owner_edits = u64::MAX,
            "change_budget_canonical_owner_edits",
        ),
        (
            |budget| budget.canonical_edits.maximum_type_edits = u64::MAX,
            "change_budget_canonical_type_edits",
        ),
        (
            |budget| budget.canonical_edits.maximum_dependency_edits = u64::MAX,
            "change_budget_canonical_dependency_edits",
        ),
        (
            |budget| budget.canonical_edits.maximum_retirement_edits = u64::MAX,
            "change_budget_canonical_retirement_edits",
        ),
        (
            |budget| budget.canonical_reads.maximum_point_reads = u64::MAX,
            "change_budget_canonical_point_reads",
        ),
        (
            |budget| budget.canonical_reads.maximum_map_pages = u64::MAX,
            "change_budget_canonical_map_pages",
        ),
        (
            |budget| budget.canonical_reads.maximum_map_entries = u64::MAX,
            "change_budget_canonical_map_entries",
        ),
        (
            |budget| budget.canonical_reads.maximum_catalog_lookups = u64::MAX,
            "change_budget_canonical_catalog_lookups",
        ),
        (
            |budget| budget.canonical_reads.maximum_objects = u64::MAX,
            "change_budget_canonical_objects",
        ),
        (
            |budget| budget.canonical_reads.maximum_bytes = u64::MAX,
            "change_budget_canonical_bytes",
        ),
        (
            |budget| budget.canonical_reads.maximum_decoded_records = u64::MAX,
            "change_budget_canonical_decoded_records",
        ),
        (
            |budget| budget.canonical_map_update.maximum_pages_encoded = u64::MAX,
            "change_budget_canonical_map_pages_encoded",
        ),
        (
            |budget| budget.canonical_map_update.maximum_bytes_encoded = u64::MAX,
            "change_budget_canonical_map_bytes_encoded",
        ),
        (
            |budget| budget.witness_reads.maximum_point_reads = u64::MAX,
            "change_budget_witness_point_reads",
        ),
        (
            |budget| budget.witness_reads.maximum_map_pages = u64::MAX,
            "change_budget_witness_map_pages",
        ),
        (
            |budget| budget.witness_reads.maximum_map_entries = u64::MAX,
            "change_budget_witness_map_entries",
        ),
        (
            |budget| budget.witness_reads.maximum_catalog_lookups = u64::MAX,
            "change_budget_witness_catalog_lookups",
        ),
        (
            |budget| budget.witness_reads.maximum_objects = u64::MAX,
            "change_budget_witness_objects",
        ),
        (
            |budget| budget.witness_reads.maximum_bytes = u64::MAX,
            "change_budget_witness_bytes",
        ),
        (
            |budget| budget.witness_reads.maximum_decoded_records = u64::MAX,
            "change_budget_witness_decoded_records",
        ),
        (
            |budget| budget.impact.maximum_affected_owners = u64::MAX,
            "change_budget_affected_frontier_owners",
        ),
        (
            |budget| budget.impact.maximum_summary_owners = u64::MAX,
            "change_budget_impact_summary_owners",
        ),
        (
            |budget| budget.impact.maximum_summary_edits = u64::MAX,
            "change_budget_impact_summary_edits",
        ),
        (
            |budget| budget.impact.maximum_ownership_steps = u64::MAX,
            "change_budget_impact_ownership_steps",
        ),
        (
            |budget| budget.impact.maximum_behavior_owners = u64::MAX,
            "change_budget_impact_behavior_owners",
        ),
        (
            |budget| budget.impact.maximum_relation_edges = u64::MAX,
            "change_budget_relation_edges",
        ),
        (
            |budget| budget.impact.maximum_relation_fanout = u64::MAX,
            "change_budget_relation_fanout",
        ),
        (
            |budget| budget.validation.maximum_owner_records = u64::MAX,
            "change_budget_validation_owner_records",
        ),
        (
            |budget| budget.validation.maximum_ownership_entries = u64::MAX,
            "change_budget_validation_ownership_entries",
        ),
        (
            |budget| budget.validation.maximum_type_objects = u64::MAX,
            "change_budget_validation_type_objects",
        ),
        (
            |budget| budget.validation.maximum_expression_steps = u64::MAX,
            "change_budget_validation_expression_steps",
        ),
        (
            |budget| budget.validation.maximum_diagnostics = u64::MAX,
            "change_budget_validation_diagnostics",
        ),
        (
            |budget| budget.tests.maximum_selected = u64::MAX,
            "change_budget_tests_selected",
        ),
        (
            |budget| budget.tests.maximum_dependencies_per_test = u64::MAX,
            "change_budget_test_dependencies_per_test",
        ),
        (
            |budget| budget.tests.maximum_ownership_steps = u64::MAX,
            "change_budget_test_ownership_steps",
        ),
        (
            |budget| budget.tests.maximum_owners_visited = u64::MAX,
            "change_budget_test_owners_visited",
        ),
        (
            |budget| budget.witness_update.maximum_edits = u64::MAX,
            "change_budget_witness_edits",
        ),
        (
            |budget| budget.witness_update.maximum_pages_encoded = u64::MAX,
            "change_budget_witness_map_pages_encoded",
        ),
        (
            |budget| budget.witness_update.maximum_bytes_encoded = u64::MAX,
            "change_budget_witness_map_bytes_encoded",
        ),
        (
            |budget| budget.staging.maximum_objects = u64::MAX,
            "change_budget_staged_objects",
        ),
        (
            |budget| budget.staging.maximum_bytes = u64::MAX,
            "change_budget_staged_bytes",
        ),
        (
            |budget| budget.staging.maximum_pages = u64::MAX,
            "change_budget_staged_pages",
        ),
    ];

    for (invalidate, expected) in cases {
        let mut budget = ChangeBudget::default();
        invalidate(&mut budget);
        let error = budget
            .validate()
            .expect_err("maximum above its owning engine ceiling must reject");
        assert_eq!(error.code, *expected);
    }
}
