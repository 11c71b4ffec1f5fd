//! The decisions of publishing one revision into a durable workspace: whether an immutable path
//! that already exists may be reused, and what a failed publication undoes. The file steps
//! themselves are the caller's; these functions decide from what they observed.

use crate::diagnostic::{static_message, Diagnostic, DiagnosticClass};
use vstd::prelude::*;

verus! {

/// The two immutable files one publication writes before it moves the head.
#[derive(Clone, Copy, Debug, PartialEq, Eq, Structural)]
pub enum ImmutableFile {
    Revision,
    Record,
}

/// What a look at an immutable path, without following links, found.
#[derive(Clone, Copy, Debug, PartialEq, Eq, Structural)]
pub enum PathObservation {
    Missing,
    NotRegular,
    Regular(u64),
}

/// The refusal a publication meets when its durable files are not what it expects.
fn corrupt(message: &'static str) -> (r: Diagnostic)
    ensures
        r.class == DiagnosticClass::Corrupt,
        r.code@ == "artifact_corrupt"@,
{
    Diagnostic::new(DiagnosticClass::Corrupt, "artifact_corrupt", static_message(message))
}

/// Whether an immutable file already exists and may be reused, given what its path holds and
/// the length of its canonical bytes: a missing path is written; a regular file no longer than
/// the canonical bytes is compared with them; anything else is refused as corrupt.
pub fn existing_immutable(file: ImmutableFile, observation: PathObservation, canonical_length: u64) -> (r: Result<bool, Diagnostic>)
    ensures
        match observation {
            PathObservation::Missing => r == Ok::<bool, Diagnostic>(false),
            PathObservation::NotRegular => r matches Err(d) && d.class == DiagnosticClass::Corrupt && d.code@ == "artifact_corrupt"@,
            PathObservation::Regular(length) => if length > canonical_length {
                r matches Err(d) && d.class == DiagnosticClass::Corrupt && d.code@ == "artifact_corrupt"@
            } else {
                r == Ok::<bool, Diagnostic>(true)
            },
        },
{
    match observation {
        PathObservation::Missing => Ok(false),
        PathObservation::NotRegular => Err(match file {
            ImmutableFile::Revision => corrupt("immutable revision path is not a regular file"),
            ImmutableFile::Record => corrupt("immutable revision-record path is not a regular file"),
        }),
        PathObservation::Regular(length) => {
            if length > canonical_length {
                Err(match file {
                    ImmutableFile::Revision => corrupt("immutable revision path length disagrees with canonical bytes"),
                    ImmutableFile::Record => corrupt("immutable revision-record length disagrees with canonical bytes"),
                })
            } else {
                Ok(true)
            }
        },
    }
}

/// Checks that an immutable file that already exists holds exactly the canonical bytes.
pub fn reuse_immutable(file: ImmutableFile, existing: &[u8], canonical: &[u8]) -> (r: Result<(), Diagnostic>)
    ensures
        r is Ok <==> existing@ == canonical@,
        r matches Err(d) ==> d.class == DiagnosticClass::Corrupt && d.code@ == "artifact_corrupt"@,
{
    let mut same = existing.len() == canonical.len();
    let mut i: usize = 0;
    while same && i < existing.len()
        invariant
            i <= existing@.len(),
            same ==> existing@.len() == canonical@.len(),
            same ==> forall|j: int| 0 <= j < i ==> existing@[j] == canonical@[j],
            !same ==> existing@ != canonical@,
        decreases existing@.len() - i,
    {
        if existing[i] != canonical[i] {
            same = false;
        }
        i = i + 1;
    }
    if same {
        assert(existing@ =~= canonical@);
        Ok(())
    } else {
        Err(match file {
            ImmutableFile::Revision => corrupt("immutable revision path already contains different bytes"),
            ImmutableFile::Record => corrupt("immutable revision-record path already contains different bytes"),
        })
    }
}

/// Where a publication failed.
#[derive(Clone, Copy, Debug, PartialEq, Eq, Structural)]
pub enum PublicationFailure {
    /// Writing the revision failed before its temporary file took the revision's name.
    RevisionBeforeRename,
    /// The revision took its name, and a later step of writing it failed.
    RevisionAfterRename,
    /// The record path was refused, or could not be read back.
    RecordCheck,
    /// Writing the record failed before its temporary file was written.
    RecordWrite,
    /// Writing the record failed before its temporary file took the record's name.
    RecordBeforeRename,
    /// The record took its name, and syncing its directory failed.
    RecordAfterRename,
    /// Writing the new head's temporary file failed.
    HeadWrite,
    /// The head's temporary file was written, and it failed before taking the head's name.
    HeadBeforeRename,
    /// The head took its name, and making that durable failed.
    HeadAfterRename,
}

/// One step of undoing a failed publication.
#[derive(Clone, Copy, Debug, PartialEq, Eq, Structural)]
pub enum RecoveryStep {
    RemoveRevisionTemporary,
    RemoveRecordTemporary,
    RemoveHeadTemporary,
    RemoveRevision,
    RemoveRecord,
    RestoreHead,
}

/// The created immutable files, record first, that a failure before the head moved removes.
pub open spec fn created_files(revision_created: bool, record_created: bool) -> Seq<RecoveryStep> {
    (if record_created { seq![RecoveryStep::RemoveRecord] } else { Seq::empty() })
        + (if revision_created { seq![RecoveryStep::RemoveRevision] } else { Seq::empty() })
}

/// What undoing a failed publication does, in order, given which immutable files it found in
/// place already.
pub open spec fn recovery(failure: PublicationFailure, revision_existed: bool, record_existed: bool) -> Seq<RecoveryStep> {
    match failure {
        PublicationFailure::RevisionBeforeRename => seq![RecoveryStep::RemoveRevisionTemporary],
        PublicationFailure::RevisionAfterRename => seq![RecoveryStep::RemoveRevision],
        PublicationFailure::RecordCheck => created_files(!revision_existed, false),
        PublicationFailure::RecordWrite => created_files(!revision_existed, false),
        PublicationFailure::RecordBeforeRename => seq![RecoveryStep::RemoveRecordTemporary] + created_files(!revision_existed, false),
        PublicationFailure::RecordAfterRename => created_files(!revision_existed, true),
        PublicationFailure::HeadWrite => created_files(!revision_existed, !record_existed),
        PublicationFailure::HeadBeforeRename => seq![RecoveryStep::RemoveHeadTemporary] + created_files(!revision_existed, !record_existed),
        PublicationFailure::HeadAfterRename => seq![RecoveryStep::RestoreHead]
            + (if !revision_existed { seq![RecoveryStep::RemoveRevision] } else { Seq::empty() })
            + (if !record_existed { seq![RecoveryStep::RemoveRecord] } else { Seq::empty() }),
    }
}

/// Whether a failure can happen at all given which immutable files were found in place: a file
/// found in place is never written.
pub open spec fn failure_possible(failure: PublicationFailure, revision_existed: bool, record_existed: bool) -> bool {
    match failure {
        PublicationFailure::RevisionBeforeRename | PublicationFailure::RevisionAfterRename => !revision_existed,
        PublicationFailure::RecordWrite | PublicationFailure::RecordBeforeRename | PublicationFailure::RecordAfterRename => !record_existed,
        _ => true,
    }
}

/// Pushes the removal of the created immutable files, record first.
fn push_created(steps: &mut Vec<RecoveryStep>, revision_created: bool, record_created: bool)
    ensures
        final(steps)@ == old(steps)@ + created_files(revision_created, record_created),
{
    let ghost before = steps@;
    if record_created {
        steps.push(RecoveryStep::RemoveRecord);
    }
    if revision_created {
        steps.push(RecoveryStep::RemoveRevision);
    }
    assert(steps@ =~= before + created_files(revision_created, record_created));
}

/// The steps that undo a publication that failed at `failure`, in the order to take them.
pub fn recovery_plan(failure: PublicationFailure, revision_existed: bool, record_existed: bool) -> (r: Vec<RecoveryStep>)
    requires
        failure_possible(failure, revision_existed, record_existed),
    ensures
        r@ == recovery(failure, revision_existed, record_existed),
{
    let mut steps: Vec<RecoveryStep> = Vec::new();
    match failure {
        PublicationFailure::RevisionBeforeRename => {
            steps.push(RecoveryStep::RemoveRevisionTemporary);
        },
        PublicationFailure::RevisionAfterRename => {
            steps.push(RecoveryStep::RemoveRevision);
        },
        PublicationFailure::RecordCheck | PublicationFailure::RecordWrite => {
            push_created(&mut steps, !revision_existed, false);
        },
        PublicationFailure::RecordBeforeRename => {
            steps.push(RecoveryStep::RemoveRecordTemporary);
            push_created(&mut steps, !revision_existed, false);
        },
        PublicationFailure::RecordAfterRename => {
            push_created(&mut steps, !revision_existed, true);
        },
        PublicationFailure::HeadWrite => {
            push_created(&mut steps, !revision_existed, !record_existed);
        },
        PublicationFailure::HeadBeforeRename => {
            steps.push(RecoveryStep::RemoveHeadTemporary);
            push_created(&mut steps, !revision_existed, !record_existed);
        },
        PublicationFailure::HeadAfterRename => {
            steps.push(RecoveryStep::RestoreHead);
            if !revision_existed {
                steps.push(RecoveryStep::RemoveRevision);
            }
            if !record_existed {
                steps.push(RecoveryStep::RemoveRecord);
            }
        },
    }
    assert(steps@ =~= recovery(failure, revision_existed, record_existed));
    steps
}

/// Undoing a failed publication never removes an immutable file it found in place, and removes
/// every immutable file it had already given its name; it restores the old head exactly when
/// the new head had taken its name.
pub proof fn recovery_keeps_what_existed(failure: PublicationFailure, revision_existed: bool, record_existed: bool)
    requires
        failure_possible(failure, revision_existed, record_existed),
    ensures
        revision_existed ==> !recovery(failure, revision_existed, record_existed).contains(RecoveryStep::RemoveRevision),
        record_existed ==> !recovery(failure, revision_existed, record_existed).contains(RecoveryStep::RemoveRecord),
        !revision_existed && failure != PublicationFailure::RevisionBeforeRename
            ==> recovery(failure, revision_existed, record_existed).contains(RecoveryStep::RemoveRevision),
        !record_existed && (failure == PublicationFailure::RecordAfterRename || failure == PublicationFailure::HeadWrite
            || failure == PublicationFailure::HeadBeforeRename || failure == PublicationFailure::HeadAfterRename)
            ==> recovery(failure, revision_existed, record_existed).contains(RecoveryStep::RemoveRecord),
        recovery(failure, revision_existed, record_existed).contains(RecoveryStep::RestoreHead)
            <==> failure == PublicationFailure::HeadAfterRename,
{
    let steps = recovery(failure, revision_existed, record_existed);
    let removed_record = seq![RecoveryStep::RemoveRecord];
    let removed_revision = seq![RecoveryStep::RemoveRevision];
    assert(removed_record[0] == RecoveryStep::RemoveRecord);
    assert(removed_revision[0] == RecoveryStep::RemoveRevision);
    match failure {
        PublicationFailure::HeadAfterRename => {
            assert(steps[0] == RecoveryStep::RestoreHead);
            if !revision_existed {
                assert(steps[1] == RecoveryStep::RemoveRevision);
            }
            if !record_existed {
                assert(steps[steps.len() - 1] == RecoveryStep::RemoveRecord);
            }
        },
        PublicationFailure::RevisionBeforeRename => {
            assert(steps[0] == RecoveryStep::RemoveRevisionTemporary);
        },
        PublicationFailure::RevisionAfterRename => {
            assert(steps[0] == RecoveryStep::RemoveRevision);
        },
        PublicationFailure::HeadBeforeRename | PublicationFailure::RecordBeforeRename => {
            assert(steps[0] != RecoveryStep::RestoreHead);
            if !revision_existed {
                assert(steps[steps.len() - 1] == RecoveryStep::RemoveRevision);
            }
            if !record_existed && failure == PublicationFailure::HeadBeforeRename {
                assert(steps[1] == RecoveryStep::RemoveRecord);
            }
        },
        _ => {
            if !revision_existed {
                assert(steps[steps.len() - 1] == RecoveryStep::RemoveRevision);
            }
            if !record_existed && (failure == PublicationFailure::RecordAfterRename || failure == PublicationFailure::HeadWrite) {
                assert(steps[0] == RecoveryStep::RemoveRecord);
            }
        },
    }
}

} // verus!
