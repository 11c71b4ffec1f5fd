use lkjscript_platform::diagnostic::DiagnosticClass;
use lkjscript_platform::receipt::{compare_working, doctor_tally, verify_expected, ManifestObjects, ObjectRef, PublicationKind};

fn object(digest: &str, bytes: u64) -> ObjectRef {
    ObjectRef { digest: digest.to_owned(), bytes }
}

fn digests(objects: &[ObjectRef]) -> Vec<String> {
    objects.iter().map(|object| object.digest.clone()).collect()
}

#[test]
fn expected_revision_must_match_both_revision_and_record() {
    assert!(verify_expected(3, "abc", 3, "abc").is_ok());
    let stale = verify_expected(4, "def", 3, "abc").unwrap_err();
    assert_eq!(stale.class, DiagnosticClass::Source);
    assert_eq!(stale.code, "source_stale_base");
    assert_eq!(stale.message, "expected revision 3 record abc; current revision is 4 record def");
    assert_eq!(verify_expected(3, "def", 3, "abc").unwrap_err().code, "source_stale_base");
    assert_eq!(verify_expected(2, "abc", 3, "abc").unwrap_err().code, "source_stale_base");
}

#[test]
fn working_comparison_reports_each_digest_change() {
    let same = compare_working("a1", "a1", "s1", "s1");
    assert!(!same.authored_changed);
    assert!(!same.semantic_changed);
    assert_eq!(same.kind, PublicationKind::NoChange);
    let layout_only = compare_working("a1", "a2", "s1", "s1");
    assert!(layout_only.authored_changed);
    assert!(!layout_only.semantic_changed);
    assert_eq!(layout_only.kind, PublicationKind::Validated);
    let both = compare_working("a1", "a2", "s1", "s2");
    assert!(both.authored_changed && both.semantic_changed);
}

#[test]
fn doctor_reads_each_distinct_object_once_and_walks_the_chain_only_when_deep() {
    let head = ManifestObjects {
        sources: vec![object("p2", 10), object("m1", 20)],
        dependencies: vec![object("d1", 5)],
    };
    let parent = ManifestObjects {
        sources: vec![object("p1", 7), object("m1", 20)],
        dependencies: vec![object("d1", 5), object("d2", 6)],
    };
    let chain = vec![head, parent];

    let shallow = doctor_tally(&chain, false);
    assert_eq!(shallow.records_checked, 1);
    assert_eq!(shallow.manifests_checked, 1);
    assert_eq!(digests(&shallow.source_reads), vec!["p2", "m1"]);
    assert_eq!(shallow.source_objects_checked, 2);
    assert_eq!(shallow.source_bytes_checked, 30);
    assert_eq!(shallow.dependency_objects_checked, 1);
    assert_eq!(shallow.dependency_bytes_checked, 5);

    let deep = doctor_tally(&chain, true);
    assert_eq!(deep.records_checked, 2);
    assert_eq!(deep.manifests_checked, 2);
    assert_eq!(digests(&deep.source_reads), vec!["p2", "m1", "p1"]);
    assert_eq!(deep.source_objects_checked, 3);
    assert_eq!(deep.source_bytes_checked, 37);
    assert_eq!(digests(&deep.dependency_reads), vec!["d1", "d2"]);
    assert_eq!(deep.dependency_objects_checked, 2);
    assert_eq!(deep.dependency_bytes_checked, 11);
}

#[test]
fn doctor_byte_totals_hold_at_the_largest_count() {
    let chain = vec![ManifestObjects {
        sources: vec![object("a", u64::MAX), object("b", 1)],
        dependencies: Vec::new(),
    }];
    let tally = doctor_tally(&chain, true);
    assert_eq!(tally.source_bytes_checked, u64::MAX);
    assert_eq!(tally.source_objects_checked, 2);
}
