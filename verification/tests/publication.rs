use lkjscript_platform::diagnostic::DiagnosticClass;
use lkjscript_platform::publication::{
    existing_immutable, recovery_plan, reuse_immutable, ImmutableFile, PathObservation, PublicationFailure, RecoveryStep,
};

#[test]
fn immutable_paths_are_written_reused_or_refused() {
    assert_eq!(existing_immutable(ImmutableFile::Revision, PathObservation::Missing, 10).unwrap(), false);
    assert_eq!(existing_immutable(ImmutableFile::Revision, PathObservation::Regular(10), 10).unwrap(), true);
    let longer = existing_immutable(ImmutableFile::Record, PathObservation::Regular(11), 10).unwrap_err();
    assert_eq!(longer.class, DiagnosticClass::Corrupt);
    assert_eq!(longer.code, "artifact_corrupt");
    assert_eq!(longer.message, "immutable revision-record length disagrees with canonical bytes");
    let link = existing_immutable(ImmutableFile::Revision, PathObservation::NotRegular, 10).unwrap_err();
    assert_eq!(link.message, "immutable revision path is not a regular file");
}

#[test]
fn an_existing_immutable_file_is_reused_only_with_equal_bytes() {
    assert!(reuse_immutable(ImmutableFile::Revision, b"abc", b"abc").is_ok());
    let different = reuse_immutable(ImmutableFile::Revision, b"abd", b"abc").unwrap_err();
    assert_eq!(different.code, "artifact_corrupt");
    assert_eq!(different.message, "immutable revision path already contains different bytes");
    assert!(reuse_immutable(ImmutableFile::Record, b"ab", b"abc").is_err());
}

#[test]
fn failed_publication_removes_only_what_it_created() {
    assert_eq!(
        recovery_plan(PublicationFailure::RevisionBeforeRename, false, false),
        vec![RecoveryStep::RemoveRevisionTemporary]
    );
    assert_eq!(
        recovery_plan(PublicationFailure::RecordCheck, false, true),
        vec![RecoveryStep::RemoveRevision]
    );
    assert_eq!(recovery_plan(PublicationFailure::RecordCheck, true, true), Vec::<RecoveryStep>::new());
    assert_eq!(
        recovery_plan(PublicationFailure::HeadBeforeRename, false, false),
        vec![RecoveryStep::RemoveHeadTemporary, RecoveryStep::RemoveRecord, RecoveryStep::RemoveRevision]
    );
    assert_eq!(
        recovery_plan(PublicationFailure::HeadWrite, true, false),
        vec![RecoveryStep::RemoveRecord]
    );
    assert_eq!(
        recovery_plan(PublicationFailure::HeadAfterRename, false, false),
        vec![RecoveryStep::RestoreHead, RecoveryStep::RemoveRevision, RecoveryStep::RemoveRecord]
    );
    assert_eq!(
        recovery_plan(PublicationFailure::HeadAfterRename, true, true),
        vec![RecoveryStep::RestoreHead]
    );
}
