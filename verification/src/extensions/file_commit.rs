//! Replacing one file without losing what others write to it.
//!
//! New contents are written to a temporary file beside the target, and the two are exchanged in one
//! step. What was displaced is then compared with what was previewed: where somebody else changed
//! the file in between, the exchange is undone, and a file that nobody here wrote is never removed.
//!
//! The module decides; it performs nothing. [`FileCommit`] says which [`FileAction`] comes next, the
//! caller performs it and hands back a [`FileEvent`].

use vstd::prelude::*;
use super::error::ExtensionError;
use crate::bytes::same_bytes;

verus! {

/// Which file it is, whatever its name.
#[derive(Clone, Copy, Debug, PartialEq, Eq, Structural)]
pub struct FileIdentity {
    pub device: u64,
    pub inode: u64,
}

/// Size and times of a file.
#[derive(Clone, Copy, Debug, PartialEq, Eq, Structural)]
pub struct FileVersion {
    pub size: u64,
    pub modified_seconds: i64,
    pub modified_nanos: i64,
    pub changed_seconds: i64,
    pub changed_nanos: i64,
}

/// A file as it was read at one moment; `existed` is false for a name without a file.
#[derive(Debug)]
pub struct FileSnapshot {
    pub existed: bool,
    pub identity: Option<FileIdentity>,
    pub version: Option<FileVersion>,
    pub bytes: Vec<u8>,
}

/// What a look at a name showed. The texts are those of the errors.
#[derive(Debug)]
pub enum Look {
    Missing(String),
    OpenFailed(String),
    ReadFailed(String),
    Found(FileSnapshot),
}

/// Whether two versions tell of the same contents: renaming a file changes its change time only.
pub open spec fn same_content_version(left: FileVersion, right: FileVersion) -> bool {
    &&& left.size == right.size
    &&& left.modified_seconds == right.modified_seconds
    &&& left.modified_nanos == right.modified_nanos
}

/// Whether a snapshot shows the file `identity` with the given contents.
pub open spec fn shows(
    snapshot: FileSnapshot,
    identity: FileIdentity,
    version: FileVersion,
    contents: Seq<u8>,
) -> bool {
    &&& snapshot.identity == Some(identity)
    &&& snapshot.version matches Some(current) && same_content_version(current, version)
    &&& snapshot.bytes@ == contents
}

/// Whether two snapshots show the same file in the same state.
pub open spec fn same_snapshot(left: FileSnapshot, right: FileSnapshot) -> bool {
    &&& left.existed == right.existed
    &&& left.identity == right.identity
    &&& left.version == right.version
    &&& left.bytes@ == right.bytes@
}

/// Whether two versions tell of the same contents.
pub fn file_content_version_matches(left: &FileVersion, right: &FileVersion) -> (out: bool)
    ensures
        out == same_content_version(*left, *right),
{
    left.size == right.size && left.modified_seconds == right.modified_seconds
        && left.modified_nanos == right.modified_nanos
}

fn same_identity(left: Option<FileIdentity>, right: Option<FileIdentity>) -> (out: bool)
    ensures
        out == (left == right),
{
    match (left, right) {
        (Some(a), Some(b)) => a == b,
        (None, None) => true,
        _ => false,
    }
}

fn same_version(left: Option<FileVersion>, right: Option<FileVersion>) -> (out: bool)
    ensures
        out == (left == right),
{
    match (left, right) {
        (Some(a), Some(b)) => a == b,
        (None, None) => true,
        _ => false,
    }
}

/// Whether two snapshots show the same file in the same state.
pub fn snapshot_matches(left: &FileSnapshot, right: &FileSnapshot) -> (out: bool)
    ensures
        out == same_snapshot(*left, *right),
{
    left.existed == right.existed && same_identity(left.identity, right.identity) && same_version(
        left.version,
        right.version,
    ) && same_bytes(&left.bytes, &right.bytes)
}

/// Whether a snapshot shows the file `identity` with the given contents.
pub fn snapshot_shows(
    snapshot: &FileSnapshot,
    identity: FileIdentity,
    version: FileVersion,
    contents: &[u8],
) -> (out: bool)
    ensures
        out == shows(*snapshot, identity, version, contents@),
{
    let same_file = match snapshot.identity {
        Some(current) => current == identity,
        None => false,
    };
    let same_contents = match snapshot.version {
        Some(current) => file_content_version_matches(&current, &version),
        None => false,
    };
    same_file && same_contents && same_bytes(&snapshot.bytes, contents)
}

/// Why a file was not replaced. The texts are those of the errors that the caller met.
#[derive(Debug)]
pub enum CommitFailure {
    ParentUnopened(String),
    ParentUnreadable(String),
    ParentChanged,
    TargetUnreadable(String),
    TargetCreated,
    TargetChanged,
    NotWritten(String),
    ParentNotReopened(String),
    ParentMoved,
    CommittedUnreadable(String),
    CommittedChanged,
    DisplacedUnreadable(String),
    DisplacedChanged,
    NotRestored(String),
    UnknownNotPreserved,
    TemporaryChanged,
    CreatedDuringCommit,
    ResultUnreadable,
    ResultChanged,
}

impl CommitFailure {
    /// The code and the message that report a failure.
    pub open spec fn report(self) -> (Seq<char>, Seq<char>) {
        match self {
            CommitFailure::ParentUnopened(m) => (
                "file_conflict"@,
                "unable to open file parent: "@ + m@,
            ),
            CommitFailure::ParentUnreadable(m) => (
                "file_conflict"@,
                "unable to validate file parent: "@ + m@,
            ),
            CommitFailure::ParentChanged => (
                "file_conflict"@,
                "file parent changed after preview"@,
            ),
            CommitFailure::TargetUnreadable(m) => (
                "file_conflict"@,
                "unable to validate file: "@ + m@,
            ),
            CommitFailure::TargetCreated => ("file_conflict"@, "file was created after preview"@),
            CommitFailure::TargetChanged => ("file_conflict"@, "file changed after preview"@),
            CommitFailure::NotWritten(m) => ("file_write_failed"@, m@),
            CommitFailure::ParentNotReopened(m) => (
                "file_conflict"@,
                "unable to revalidate file parent: "@ + m@,
            ),
            CommitFailure::ParentMoved => ("file_conflict"@, "file parent changed during commit"@),
            CommitFailure::CommittedUnreadable(m) => (
                "file_conflict"@,
                "unable to validate committed file: "@ + m@,
            ),
            CommitFailure::CommittedChanged => (
                "file_conflict"@,
                "target changed during file commit"@,
            ),
            CommitFailure::DisplacedUnreadable(m) => (
                "file_conflict"@,
                "unable to validate displaced file: "@ + m@,
            ),
            CommitFailure::DisplacedChanged => (
                "file_conflict"@,
                "file changed during atomic commit"@,
            ),
            CommitFailure::NotRestored(m) => (
                "file_write_failed"@,
                "unable to restore file after conflict: "@ + m@,
            ),
            CommitFailure::UnknownNotPreserved => (
                "file_conflict"@,
                "unable to preserve concurrent file during rollback"@,
            ),
            CommitFailure::TemporaryChanged => (
                "file_conflict"@,
                "temporary file changed during commit"@,
            ),
            CommitFailure::CreatedDuringCommit => (
                "file_conflict"@,
                "file was created during commit"@,
            ),
            CommitFailure::ResultUnreadable => (
                "file_conflict"@,
                "unable to snapshot committed file"@,
            ),
            CommitFailure::ResultChanged => ("file_conflict"@, "target changed during commit"@),
        }
    }

    /// The error that reports a failure.
    pub fn error(&self) -> (out: ExtensionError)
        ensures
            out.is(self.report().0, self.report().1),
    {
        match self {
            CommitFailure::ParentUnopened(m) => file_conflict_because(
                "unable to open file parent: ",
                m,
            ),
            CommitFailure::ParentUnreadable(m) => file_conflict_because(
                "unable to validate file parent: ",
                m,
            ),
            CommitFailure::ParentChanged => file_conflict("file parent changed after preview"),
            CommitFailure::TargetUnreadable(m) => file_conflict_because(
                "unable to validate file: ",
                m,
            ),
            CommitFailure::TargetCreated => file_conflict("file was created after preview"),
            CommitFailure::TargetChanged => file_conflict("file changed after preview"),
            CommitFailure::NotWritten(m) => ExtensionError::new("file_write_failed", m),
            CommitFailure::ParentNotReopened(m) => file_conflict_because(
                "unable to revalidate file parent: ",
                m,
            ),
            CommitFailure::ParentMoved => file_conflict("file parent changed during commit"),
            CommitFailure::CommittedUnreadable(m) => file_conflict_because(
                "unable to validate committed file: ",
                m,
            ),
            CommitFailure::CommittedChanged => file_conflict("target changed during file commit"),
            CommitFailure::DisplacedUnreadable(m) => file_conflict_because(
                "unable to validate displaced file: ",
                m,
            ),
            CommitFailure::DisplacedChanged => file_conflict("file changed during atomic commit"),
            CommitFailure::NotRestored(m) => ExtensionError::with_cause(
                "file_write_failed",
                "unable to restore file after conflict: ",
                m,
            ),
            CommitFailure::UnknownNotPreserved => file_conflict(
                "unable to preserve concurrent file during rollback",
            ),
            CommitFailure::TemporaryChanged => file_conflict(
                "temporary file changed during commit",
            ),
            CommitFailure::CreatedDuringCommit => file_conflict("file was created during commit"),
            CommitFailure::ResultUnreadable => file_conflict("unable to snapshot committed file"),
            CommitFailure::ResultChanged => file_conflict("target changed during commit"),
        }
    }
}

/// The error of a file that somebody else changed.
pub fn file_conflict(message: &str) -> (out: ExtensionError)
    ensures
        out.is("file_conflict"@, message@),
{
    ExtensionError::new("file_conflict", message)
}

/// The error of a file that cannot be compared, with the cause behind the message.
pub fn file_conflict_because(message: &str, cause: &str) -> (out: ExtensionError)
    ensures
        out.is("file_conflict"@, message@ + cause@),
{
    ExtensionError::with_cause("file_conflict", message, cause)
}

/// What a look at the target says against a preview; `None` where it shows what was previewed.
pub open spec fn snapshot_verdict(look: Look, expected: FileSnapshot) -> Option<CommitFailure> {
    match look {
        Look::Missing(m) => if expected.existed {
            Some(CommitFailure::TargetUnreadable(m))
        } else {
            None
        },
        Look::OpenFailed(m) => Some(CommitFailure::TargetUnreadable(m)),
        Look::ReadFailed(m) => if !expected.existed {
            Some(CommitFailure::TargetCreated)
        } else {
            Some(CommitFailure::TargetUnreadable(m))
        },
        Look::Found(current) => if !expected.existed {
            Some(CommitFailure::TargetCreated)
        } else if current.identity == expected.identity && current.version == expected.version
            && current.bytes@ == expected.bytes@ {
            None
        } else {
            Some(CommitFailure::TargetChanged)
        },
    }
}

/// Compares a look at the target with a preview.
pub fn validate_snapshot(look: Look, expected: &FileSnapshot) -> (out: Option<CommitFailure>)
    ensures
        out == snapshot_verdict(look, *expected),
{
    match look {
        Look::Missing(m) => if expected.existed {
            Some(CommitFailure::TargetUnreadable(m))
        } else {
            None
        },
        Look::OpenFailed(m) => Some(CommitFailure::TargetUnreadable(m)),
        Look::ReadFailed(m) => if !expected.existed {
            Some(CommitFailure::TargetCreated)
        } else {
            Some(CommitFailure::TargetUnreadable(m))
        },
        Look::Found(current) => if !expected.existed {
            Some(CommitFailure::TargetCreated)
        } else if same_identity(current.identity, expected.identity) && same_version(
            current.version,
            expected.version,
        ) && same_bytes(&current.bytes, &expected.bytes) {
            None
        } else {
            Some(CommitFailure::TargetChanged)
        },
    }
}

/// What a look says against the file that this commit wrote; `None` where it shows that file.
pub open spec fn committed_verdict(
    look: Look,
    written: Option<(FileIdentity, FileVersion)>,
    contents: Seq<u8>,
) -> Option<CommitFailure> {
    match look {
        Look::Missing(m) | Look::OpenFailed(m) | Look::ReadFailed(m) => Some(
            CommitFailure::CommittedUnreadable(m),
        ),
        Look::Found(current) => if shows_written(current, written, contents) {
            None
        } else {
            Some(CommitFailure::CommittedChanged)
        },
    }
}

/// Whether a snapshot shows the file that this commit wrote.
pub open spec fn shows_written(
    snapshot: FileSnapshot,
    written: Option<(FileIdentity, FileVersion)>,
    contents: Seq<u8>,
) -> bool {
    written matches Some((identity, version)) && shows(snapshot, identity, version, contents)
}

/// Whether a snapshot shows the file that was previewed.
pub open spec fn shows_expected(snapshot: FileSnapshot, expected: FileSnapshot) -> bool {
    expected.identity matches Some(identity) && expected.version matches Some(version) && shows(
        snapshot,
        identity,
        version,
        expected.bytes@,
    )
}

fn snapshot_shows_written(
    snapshot: &FileSnapshot,
    written: Option<(FileIdentity, FileVersion)>,
    contents: &[u8],
) -> (out: bool)
    ensures
        out == shows_written(*snapshot, written, contents@),
{
    match written {
        Some((identity, version)) => snapshot_shows(snapshot, identity, version, contents),
        None => false,
    }
}

fn snapshot_shows_expected(snapshot: &FileSnapshot, expected: &FileSnapshot) -> (out: bool)
    ensures
        out == shows_expected(*snapshot, *expected),
{
    match (expected.identity, expected.version) {
        (Some(identity), Some(version)) => snapshot_shows(
            snapshot,
            identity,
            version,
            &expected.bytes,
        ),
        _ => false,
    }
}

/// Compares a look with the file that this commit wrote.
pub fn validate_committed_target(
    look: Look,
    written: Option<(FileIdentity, FileVersion)>,
    contents: &[u8],
) -> (out: Option<CommitFailure>)
    ensures
        out == committed_verdict(look, written, contents@),
{
    match look {
        Look::Missing(m) => Some(CommitFailure::CommittedUnreadable(m)),
        Look::OpenFailed(m) => Some(CommitFailure::CommittedUnreadable(m)),
        Look::ReadFailed(m) => Some(CommitFailure::CommittedUnreadable(m)),
        Look::Found(current) => if snapshot_shows_written(&current, written, contents) {
            None
        } else {
            Some(CommitFailure::CommittedChanged)
        },
    }
}

/// What a look at the displaced file says against the preview; `None` where it is the same file.
pub open spec fn displaced_verdict(look: Look, expected: FileSnapshot) -> Option<CommitFailure> {
    match look {
        Look::Missing(m) | Look::OpenFailed(m) | Look::ReadFailed(m) => Some(
            CommitFailure::DisplacedUnreadable(m),
        ),
        Look::Found(current) => if expected.existed && current.identity == expected.identity
            && current.bytes@ == expected.bytes@ && (current.version matches Some(now)
            && expected.version matches Some(earlier) && same_content_version(now, earlier)) {
            None
        } else {
            Some(CommitFailure::DisplacedChanged)
        },
    }
}

/// Compares a look at the displaced file with the preview.
pub fn validate_displaced_target(look: Look, expected: &FileSnapshot) -> (out: Option<
    CommitFailure,
>)
    ensures
        out == displaced_verdict(look, *expected),
{
    match look {
        Look::Missing(m) => Some(CommitFailure::DisplacedUnreadable(m)),
        Look::OpenFailed(m) => Some(CommitFailure::DisplacedUnreadable(m)),
        Look::ReadFailed(m) => Some(CommitFailure::DisplacedUnreadable(m)),
        Look::Found(current) => {
            let same_contents = match (current.version, expected.version) {
                (Some(now), Some(earlier)) => file_content_version_matches(&now, &earlier),
                _ => false,
            };
            if expected.existed && same_identity(current.identity, expected.identity)
                && same_contents && same_bytes(&current.bytes, &expected.bytes) {
                None
            } else {
                Some(CommitFailure::DisplacedChanged)
            }
        },
    }
}

/// Where a commit stands: what it waits for.
#[derive(Clone, Copy, Debug, PartialEq, Eq, Structural)]
pub enum CommitPhase {
    OpenParent,
    CheckTarget,
    CreateTemporary,
    WriteTemporary,
    RecheckTarget,
    ReopenParent,
    CheckTemporary,
    ExchangeIn,
    CheckDisplaced,
    CheckCommitted,
    DropDisplacedAfterFailure,
    RecheckCommitted,
    ExchangeBack,
    SeeTarget,
    SeeTemporary,
    SeeTargetAgain,
    SeeTemporaryAgain,
    ExchangeForward,
    SeeDisplaced,
    RemoveExpected,
    RemoveWritten,
    PreserveOrFail,
    Preserve,
    DropDisplaced,
    Publish,
    SyncParent,
    CheckResult,
    CleanUp,
    Finished,
}

/// What the caller performs next.
#[derive(Clone, Copy, Debug, PartialEq, Eq, Structural)]
pub enum FileAction {
    /// Open the target's directory and read its identity.
    OpenParent,
    /// Read the file under the target's name.
    LookAtTarget,
    /// Create the temporary file.
    CreateTemporary,
    /// Write the contents to it, flush it, and read its identity and version.
    WriteTemporary,
    /// Read the file under the temporary name.
    LookAtTemporary,
    /// Exchange the target and the temporary file in one step.
    Exchange,
    /// Give the temporary file the target's name, which must be free.
    Publish,
    /// Remove the file under the temporary name if it is the one that was previewed.
    RemoveExpected,
    /// Remove the file under the temporary name if it is the one that was written.
    RemoveWritten,
    /// Give the file under the temporary name a name of its own.
    Preserve,
    /// Flush the directory.
    SyncParent,
    /// Nothing: the commit has ended.
    Nothing,
}

/// What came of an action.
#[derive(Debug)]
pub enum FileEvent {
    /// The directory was opened; `same_name` tells whether the target's name in it is still the one
    /// that the commit began with.
    Parent { identity: FileIdentity, same_name: bool },
    /// The directory could not be opened.
    ParentUnopened(String),
    /// The directory's identity could not be read.
    ParentUnreadable(String),
    Looked(Look),
    Written { identity: FileIdentity, version: FileVersion },
    Done,
    /// The name was taken.
    Collided,
    Failed(String),
    Removed(bool),
    Preserved(bool),
}

/// The replacement of one file: what was previewed, what is to be written, and how far it has come.
#[derive(Debug)]
pub struct FileCommit {
    pub expected_parent: Option<FileIdentity>,
    pub expected: FileSnapshot,
    pub contents: Vec<u8>,
    pub phase: CommitPhase,
    /// The temporary file, once it is written.
    pub written: Option<(FileIdentity, FileVersion)>,
    /// Why the displaced file is not the previewed one.
    pub displaced: Option<CommitFailure>,
    pub target_seen: Option<FileSnapshot>,
    pub temporary_seen: Option<FileSnapshot>,
    pub target_stable: bool,
    pub failure: Option<CommitFailure>,
    pub result: Option<FileSnapshot>,
}

/// The snapshot that a look gave.
pub open spec fn seen(look: Look) -> Option<FileSnapshot> {
    match look {
        Look::Found(snapshot) => Some(snapshot),
        _ => None,
    }
}

fn look_seen(look: Look) -> (out: Option<FileSnapshot>)
    ensures
        out == seen(look),
{
    match look {
        Look::Found(snapshot) => Some(snapshot),
        _ => None,
    }
}

/// The start of a commit.
pub open spec fn is_start(
    commit: FileCommit,
    expected_parent: Option<FileIdentity>,
    expected: FileSnapshot,
    contents: Vec<u8>,
) -> bool {
    commit == (FileCommit {
        expected_parent,
        expected,
        contents,
        phase: CommitPhase::OpenParent,
        written: None,
        displaced: None,
        target_seen: None,
        temporary_seen: None,
        target_stable: false,
        failure: None,
        result: None,
    })
}

/// Begins to replace a file that was previewed as `expected` by `contents`.
pub fn apply_file_transaction(
    expected_parent: Option<FileIdentity>,
    expected: FileSnapshot,
    contents: Vec<u8>,
) -> (out: FileCommit)
    ensures
        is_start(out, expected_parent, expected, contents),
{
    FileCommit {
        expected_parent,
        expected,
        contents,
        phase: CommitPhase::OpenParent,
        written: None,
        displaced: None,
        target_seen: None,
        temporary_seen: None,
        target_stable: false,
        failure: None,
        result: None,
    }
}

impl FileCommit {
    /// The action that a phase waits for.
    pub open spec fn awaited(phase: CommitPhase) -> FileAction {
        match phase {
            CommitPhase::OpenParent | CommitPhase::ReopenParent => FileAction::OpenParent,
            CommitPhase::CheckTarget | CommitPhase::RecheckTarget | CommitPhase::CheckCommitted
            | CommitPhase::RecheckCommitted | CommitPhase::SeeTarget | CommitPhase::SeeTargetAgain
            | CommitPhase::CheckResult => FileAction::LookAtTarget,
            CommitPhase::CreateTemporary => FileAction::CreateTemporary,
            CommitPhase::WriteTemporary => FileAction::WriteTemporary,
            CommitPhase::CheckTemporary | CommitPhase::CheckDisplaced | CommitPhase::SeeTemporary
            | CommitPhase::SeeTemporaryAgain | CommitPhase::SeeDisplaced =>
                FileAction::LookAtTemporary,
            CommitPhase::ExchangeIn | CommitPhase::ExchangeBack | CommitPhase::ExchangeForward =>
                FileAction::Exchange,
            CommitPhase::Publish => FileAction::Publish,
            CommitPhase::DropDisplacedAfterFailure | CommitPhase::RemoveExpected
            | CommitPhase::DropDisplaced => FileAction::RemoveExpected,
            CommitPhase::RemoveWritten | CommitPhase::CleanUp => FileAction::RemoveWritten,
            CommitPhase::PreserveOrFail | CommitPhase::Preserve => FileAction::Preserve,
            CommitPhase::SyncParent => FileAction::SyncParent,
            CommitPhase::Finished => FileAction::Nothing,
        }
    }

    /// Whether an event is an answer to an action.
    pub open spec fn answers(action: FileAction, event: FileEvent) -> bool {
        match action {
            FileAction::OpenParent => event is Parent || event is ParentUnopened
                || event is ParentUnreadable,
            FileAction::LookAtTarget | FileAction::LookAtTemporary => event is Looked,
            FileAction::CreateTemporary | FileAction::Exchange | FileAction::SyncParent =>
                event is Done || event is Failed,
            FileAction::WriteTemporary => event is Written || event is Failed,
            FileAction::Publish => event is Done || event is Collided || event is Failed,
            FileAction::RemoveExpected | FileAction::RemoveWritten => event is Removed,
            FileAction::Preserve => event is Preserved,
            FileAction::Nothing => false,
        }
    }

    /// The action that comes next.
    pub fn action(&self) -> (out: FileAction)
        ensures
            out == Self::awaited(self.phase),
    {
        match self.phase {
            CommitPhase::OpenParent | CommitPhase::ReopenParent => FileAction::OpenParent,
            CommitPhase::CheckTarget | CommitPhase::RecheckTarget | CommitPhase::CheckCommitted
            | CommitPhase::RecheckCommitted | CommitPhase::SeeTarget | CommitPhase::SeeTargetAgain
            | CommitPhase::CheckResult => FileAction::LookAtTarget,
            CommitPhase::CreateTemporary => FileAction::CreateTemporary,
            CommitPhase::WriteTemporary => FileAction::WriteTemporary,
            CommitPhase::CheckTemporary | CommitPhase::CheckDisplaced | CommitPhase::SeeTemporary
            | CommitPhase::SeeTemporaryAgain | CommitPhase::SeeDisplaced =>
                FileAction::LookAtTemporary,
            CommitPhase::ExchangeIn | CommitPhase::ExchangeBack | CommitPhase::ExchangeForward =>
                FileAction::Exchange,
            CommitPhase::Publish => FileAction::Publish,
            CommitPhase::DropDisplacedAfterFailure | CommitPhase::RemoveExpected
            | CommitPhase::DropDisplaced => FileAction::RemoveExpected,
            CommitPhase::RemoveWritten | CommitPhase::CleanUp => FileAction::RemoveWritten,
            CommitPhase::PreserveOrFail | CommitPhase::Preserve => FileAction::Preserve,
            CommitPhase::SyncParent => FileAction::SyncParent,
            CommitPhase::Finished => FileAction::Nothing,
        }
    }

    /// This commit in another phase.
    pub open spec fn at(self, phase: CommitPhase) -> Self {
        FileCommit { phase, ..self }
    }

    /// This commit on its way to a failure: what was written is cleaned up first.
    pub open spec fn failing(self, failure: CommitFailure) -> Self {
        FileCommit {
            failure: Some(failure),
            phase: if self.written is Some { CommitPhase::CleanUp } else { CommitPhase::Finished },
            ..self
        }
    }

    /// This commit on its way to the failure that the displaced file gave.
    pub open spec fn failing_displaced(self) -> Self {
        FileCommit {
            failure: self.displaced,
            displaced: None,
            phase: if self.written is Some { CommitPhase::CleanUp } else { CommitPhase::Finished },
            ..self
        }
    }

    /// Whether the preview names a file that can be recognised.
    pub open spec fn expected_known(self) -> bool {
        self.expected.identity is Some && self.expected.version is Some
    }

    /// This commit after a look: a failure, or the next phase.
    pub open spec fn judged(self, verdict: Option<CommitFailure>, phase: CommitPhase) -> Self {
        match verdict {
            Some(failure) => self.failing(failure),
            None => self.at(phase),
        }
    }

    /// This commit after the target was found not to be what was written: what was displaced is
    /// dropped if it is the previewed file, and the commit fails.
    pub open spec fn overtaken(self, failure: CommitFailure) -> Self {
        if self.expected_known() {
            FileCommit {
                failure: Some(failure),
                phase: CommitPhase::DropDisplacedAfterFailure,
                ..self
            }
        } else {
            self.failing(failure)
        }
    }

    /// The commit after an event. An event that does not answer the awaited action changes nothing.
    pub open spec fn next(self, event: FileEvent) -> Self {
        match (self.phase, event) {
            (CommitPhase::OpenParent, FileEvent::ParentUnopened(m)) => self.failing(
                CommitFailure::ParentUnopened(m),
            ),
            (CommitPhase::OpenParent, FileEvent::ParentUnreadable(m)) => self.failing(
                CommitFailure::ParentUnreadable(m),
            ),
            (CommitPhase::OpenParent, FileEvent::Parent { identity, same_name }) => if
                self.expected_parent == Some(identity) {
                self.at(CommitPhase::CheckTarget)
            } else {
                self.failing(CommitFailure::ParentChanged)
            },
            (CommitPhase::CheckTarget, FileEvent::Looked(look)) => self.judged(
                snapshot_verdict(look, self.expected),
                CommitPhase::CreateTemporary,
            ),
            (CommitPhase::CreateTemporary, FileEvent::Done) => self.at(CommitPhase::WriteTemporary),
            (CommitPhase::CreateTemporary, FileEvent::Failed(m)) => self.failing(
                CommitFailure::NotWritten(m),
            ),
            (CommitPhase::WriteTemporary, FileEvent::Failed(m)) => self.failing(
                CommitFailure::NotWritten(m),
            ),
            (CommitPhase::WriteTemporary, FileEvent::Written { identity, version }) => (
            FileCommit { written: Some((identity, version)), ..self }).at(
                CommitPhase::RecheckTarget,
            ),
            (CommitPhase::RecheckTarget, FileEvent::Looked(look)) => self.judged(
                snapshot_verdict(look, self.expected),
                CommitPhase::ReopenParent,
            ),
            (CommitPhase::ReopenParent, FileEvent::ParentUnopened(m)) => self.failing(
                CommitFailure::ParentNotReopened(m),
            ),
            (CommitPhase::ReopenParent, FileEvent::ParentUnreadable(m)) => self.failing(
                CommitFailure::ParentNotReopened(m),
            ),
            (CommitPhase::ReopenParent, FileEvent::Parent { identity, same_name }) => if
                self.expected_parent == Some(identity) && same_name {
                self.at(CommitPhase::CheckTemporary)
            } else {
                self.failing(CommitFailure::ParentMoved)
            },
            (CommitPhase::CheckTemporary, FileEvent::Looked(look)) => self.judged(
                committed_verdict(look, self.written, self.contents@),
                if self.expected.existed { CommitPhase::ExchangeIn } else { CommitPhase::Publish },
            ),
            (CommitPhase::ExchangeIn, FileEvent::Done) => self.at(CommitPhase::CheckDisplaced),
            (CommitPhase::ExchangeIn, FileEvent::Failed(m)) => self.failing(
                CommitFailure::NotWritten(m),
            ),
            (CommitPhase::CheckDisplaced, FileEvent::Looked(look)) => (FileCommit {
                displaced: displaced_verdict(look, self.expected),
                ..self
            }).at(CommitPhase::CheckCommitted),
            (CommitPhase::CheckCommitted, FileEvent::Looked(look)) => match committed_verdict(
                look,
                self.written,
                self.contents@,
            ) {
                Some(failure) => self.overtaken(failure),
                None => if self.displaced is Some {
                    self.at(CommitPhase::RecheckCommitted)
                } else if self.expected_known() {
                    self.at(CommitPhase::DropDisplaced)
                } else {
                    self.at(CommitPhase::SyncParent)
                },
            },
            (CommitPhase::DropDisplacedAfterFailure, FileEvent::Removed(_)) => self.at(
                if self.written is Some { CommitPhase::CleanUp } else { CommitPhase::Finished },
            ),
            (CommitPhase::RecheckCommitted, FileEvent::Looked(look)) => match committed_verdict(
                look,
                self.written,
                self.contents@,
            ) {
                Some(failure) => self.overtaken(failure),
                None => self.at(CommitPhase::ExchangeBack),
            },
            (CommitPhase::ExchangeBack, FileEvent::Done) => self.at(CommitPhase::SeeTarget),
            (CommitPhase::ExchangeBack, FileEvent::Failed(m)) => self.failing(
                CommitFailure::NotRestored(m),
            ),
            (CommitPhase::SeeTarget, FileEvent::Looked(look)) => (FileCommit {
                target_seen: seen(look),
                ..self
            }).at(CommitPhase::SeeTemporary),
            (CommitPhase::SeeTemporary, FileEvent::Looked(look)) => match seen(look) {
                Some(snapshot) => if shows_written(snapshot, self.written, self.contents@) {
                    self.failing_displaced()
                } else if self.target_seen is Some {
                    (FileCommit { temporary_seen: Some(snapshot), ..self }).at(
                        CommitPhase::SeeTargetAgain,
                    )
                } else {
                    self.at(CommitPhase::Preserve)
                },
                None => self.at(CommitPhase::Preserve),
            },
            (CommitPhase::SeeTargetAgain, FileEvent::Looked(look)) => (FileCommit {
                target_stable: (seen(look), self.target_seen) matches (Some(now), Some(earlier))
                    && same_snapshot(now, earlier),
                ..self
            }).at(CommitPhase::SeeTemporaryAgain),
            (CommitPhase::SeeTemporaryAgain, FileEvent::Looked(look)) => if self.target_stable && (
            (seen(look), self.temporary_seen) matches (Some(now), Some(earlier)) && same_snapshot(
                now,
                earlier,
            )) {
                self.at(CommitPhase::ExchangeForward)
            } else {
                self.at(CommitPhase::Preserve)
            },
            (CommitPhase::ExchangeForward, FileEvent::Done) => self.at(CommitPhase::SeeDisplaced),
            (CommitPhase::ExchangeForward, FileEvent::Failed(_)) => self.at(CommitPhase::Preserve),
            (CommitPhase::SeeDisplaced, FileEvent::Looked(look)) => match seen(look) {
                Some(snapshot) => (FileCommit { temporary_seen: Some(snapshot), ..self }).at(
                    if shows_expected(snapshot, self.expected) {
                        CommitPhase::RemoveExpected
                    } else if shows_written(snapshot, self.written, self.contents@) {
                        CommitPhase::RemoveWritten
                    } else {
                        CommitPhase::PreserveOrFail
                    },
                ),
                None => self.failing_displaced(),
            },
            (CommitPhase::RemoveExpected, FileEvent::Removed(removed)) => if removed {
                self.failing_displaced()
            } else if self.temporary_seen matches Some(snapshot) && shows_written(
                snapshot,
                self.written,
                self.contents@,
            ) {
                self.at(CommitPhase::RemoveWritten)
            } else {
                self.at(CommitPhase::PreserveOrFail)
            },
            (CommitPhase::RemoveWritten, FileEvent::Removed(removed)) => if removed {
                self.failing_displaced()
            } else {
                self.at(CommitPhase::PreserveOrFail)
            },
            (CommitPhase::PreserveOrFail, FileEvent::Preserved(kept)) => if kept {
                self.failing_displaced()
            } else {
                self.failing(CommitFailure::UnknownNotPreserved)
            },
            (CommitPhase::Preserve, FileEvent::Preserved(_)) => self.failing_displaced(),
            (CommitPhase::DropDisplaced, FileEvent::Removed(removed)) => if removed {
                self.at(CommitPhase::SyncParent)
            } else {
                self.failing(CommitFailure::TemporaryChanged)
            },
            (CommitPhase::Publish, FileEvent::Done) => self.at(CommitPhase::SyncParent),
            (CommitPhase::Publish, FileEvent::Collided) => self.failing(
                CommitFailure::CreatedDuringCommit,
            ),
            (CommitPhase::Publish, FileEvent::Failed(m)) => self.failing(
                CommitFailure::NotWritten(m),
            ),
            (CommitPhase::SyncParent, FileEvent::Done) => self.at(CommitPhase::CheckResult),
            (CommitPhase::SyncParent, FileEvent::Failed(m)) => self.failing(
                CommitFailure::NotWritten(m),
            ),
            (CommitPhase::CheckResult, FileEvent::Looked(look)) => match seen(look) {
                Some(snapshot) => if snapshot.existed && shows_written(
                    snapshot,
                    self.written,
                    self.contents@,
                ) {
                    (FileCommit { result: Some(snapshot), ..self }).at(CommitPhase::Finished)
                } else {
                    self.failing(CommitFailure::ResultChanged)
                },
                None => self.failing(CommitFailure::ResultUnreadable),
            },
            (CommitPhase::CleanUp, FileEvent::Removed(_)) => self.at(CommitPhase::Finished),
            _ => self,
        }
    }

    /// The commit after a sequence of events.
    pub open spec fn run(self, events: Seq<FileEvent>) -> Self
        decreases events.len(),
    {
        if events.len() == 0 {
            self
        } else {
            self.run(events.drop_last()).next(events.last())
        }
    }

    fn fail(self, failure: CommitFailure) -> (out: Self)
        ensures
            out == self.failing(failure),
    {
        let mut next = self;
        next.phase = if next.written.is_some() {
            CommitPhase::CleanUp
        } else {
            CommitPhase::Finished
        };
        next.failure = Some(failure);
        next
    }

    fn fail_displaced(self) -> (out: Self)
        ensures
            out == self.failing_displaced(),
    {
        let mut next = self;
        next.phase = if next.written.is_some() {
            CommitPhase::CleanUp
        } else {
            CommitPhase::Finished
        };
        next.failure = next.displaced;
        next.displaced = None;
        next
    }

    fn go(self, phase: CommitPhase) -> (out: Self)
        ensures
            out == self.at(phase),
    {
        let mut next = self;
        next.phase = phase;
        next
    }

    fn judge(self, verdict: Option<CommitFailure>, phase: CommitPhase) -> (out: Self)
        ensures
            out == self.judged(verdict, phase),
    {
        match verdict {
            Some(failure) => self.fail(failure),
            None => self.go(phase),
        }
    }

    fn overtake(self, failure: CommitFailure) -> (out: Self)
        ensures
            out == self.overtaken(failure),
    {
        if self.expected.identity.is_some() && self.expected.version.is_some() {
            let mut next = self;
            next.phase = CommitPhase::DropDisplacedAfterFailure;
            next.failure = Some(failure);
            next
        } else {
            self.fail(failure)
        }
    }

    fn parent_opened(self, identity: FileIdentity, same_name: bool) -> (out: Self)
        requires
            self.phase is OpenParent || self.phase is ReopenParent,
        ensures
            out == self.next(FileEvent::Parent { identity, same_name }),
    {
        let same = same_identity(self.expected_parent, Some(identity));
        match self.phase {
            CommitPhase::OpenParent => if same {
                self.go(CommitPhase::CheckTarget)
            } else {
                self.fail(CommitFailure::ParentChanged)
            },
            _ => if same && same_name {
                self.go(CommitPhase::CheckTemporary)
            } else {
                self.fail(CommitFailure::ParentMoved)
            },
        }
    }

    fn looked_forward(self, look: Look) -> (out: Self)
        requires
            self.phase is CheckTarget || self.phase is RecheckTarget || self.phase is CheckTemporary
                || self.phase is CheckDisplaced || self.phase is CheckCommitted
                || self.phase is CheckResult,
        ensures
            out == self.next(FileEvent::Looked(look)),
    {
        match self.phase {
            CommitPhase::CheckTarget => {
                let verdict = validate_snapshot(look, &self.expected);
                self.judge(verdict, CommitPhase::CreateTemporary)
            },
            CommitPhase::RecheckTarget => {
                let verdict = validate_snapshot(look, &self.expected);
                self.judge(verdict, CommitPhase::ReopenParent)
            },
            CommitPhase::CheckTemporary => {
                let verdict = validate_committed_target(look, self.written, &self.contents);
                let next = if self.expected.existed {
                    CommitPhase::ExchangeIn
                } else {
                    CommitPhase::Publish
                };
                self.judge(verdict, next)
            },
            CommitPhase::CheckDisplaced => {
                let verdict = validate_displaced_target(look, &self.expected);
                let mut next = self;
                next.displaced = verdict;
                next.go(CommitPhase::CheckCommitted)
            },
            CommitPhase::CheckCommitted => {
                let verdict = validate_committed_target(look, self.written, &self.contents);
                match verdict {
                    Some(failure) => self.overtake(failure),
                    None => if self.displaced.is_some() {
                        self.go(CommitPhase::RecheckCommitted)
                    } else if self.expected.identity.is_some() && self.expected.version.is_some() {
                        self.go(CommitPhase::DropDisplaced)
                    } else {
                        self.go(CommitPhase::SyncParent)
                    },
                }
            },
            _ => match look_seen(look) {
                Some(snapshot) => if snapshot.existed && snapshot_shows_written(
                    &snapshot,
                    self.written,
                    &self.contents,
                ) {
                    let mut next = self;
                    next.result = Some(snapshot);
                    next.go(CommitPhase::Finished)
                } else {
                    self.fail(CommitFailure::ResultChanged)
                },
                None => self.fail(CommitFailure::ResultUnreadable),
            },
        }
    }

    fn looked_back(self, look: Look) -> (out: Self)
        requires
            self.phase is RecheckCommitted || self.phase is SeeTarget || self.phase is SeeTemporary
                || self.phase is SeeTargetAgain || self.phase is SeeTemporaryAgain
                || self.phase is SeeDisplaced,
        ensures
            out == self.next(FileEvent::Looked(look)),
    {
        match self.phase {
            CommitPhase::RecheckCommitted => {
                let verdict = validate_committed_target(look, self.written, &self.contents);
                match verdict {
                    Some(failure) => self.overtake(failure),
                    None => self.go(CommitPhase::ExchangeBack),
                }
            },
            CommitPhase::SeeTarget => {
                let mut next = self;
                next.target_seen = look_seen(look);
                next.go(CommitPhase::SeeTemporary)
            },
            CommitPhase::SeeTemporary => match look_seen(look) {
                Some(snapshot) => if snapshot_shows_written(
                    &snapshot,
                    self.written,
                    &self.contents,
                ) {
                    self.fail_displaced()
                } else if self.target_seen.is_some() {
                    let mut next = self;
                    next.temporary_seen = Some(snapshot);
                    next.go(CommitPhase::SeeTargetAgain)
                } else {
                    self.go(CommitPhase::Preserve)
                },
                None => self.go(CommitPhase::Preserve),
            },
            CommitPhase::SeeTargetAgain => {
                let now = look_seen(look);
                let stable = match (&now, &self.target_seen) {
                    (Some(now), Some(earlier)) => snapshot_matches(now, earlier),
                    _ => false,
                };
                let mut next = self;
                next.target_stable = stable;
                next.go(CommitPhase::SeeTemporaryAgain)
            },
            CommitPhase::SeeTemporaryAgain => {
                let now = look_seen(look);
                let stable = match (&now, &self.temporary_seen) {
                    (Some(now), Some(earlier)) => snapshot_matches(now, earlier),
                    _ => false,
                };
                if self.target_stable && stable {
                    self.go(CommitPhase::ExchangeForward)
                } else {
                    self.go(CommitPhase::Preserve)
                }
            },
            _ => match look_seen(look) {
                Some(snapshot) => {
                    let phase = if snapshot_shows_expected(&snapshot, &self.expected) {
                        CommitPhase::RemoveExpected
                    } else if snapshot_shows_written(&snapshot, self.written, &self.contents) {
                        CommitPhase::RemoveWritten
                    } else {
                        CommitPhase::PreserveOrFail
                    };
                    let mut next = self;
                    next.temporary_seen = Some(snapshot);
                    next.go(phase)
                },
                None => self.fail_displaced(),
            },
        }
    }

    fn removed(self, removed: bool) -> (out: Self)
        ensures
            out == self.next(FileEvent::Removed(removed)),
    {
        match self.phase {
            CommitPhase::DropDisplacedAfterFailure => {
                let phase = if self.written.is_some() {
                    CommitPhase::CleanUp
                } else {
                    CommitPhase::Finished
                };
                self.go(phase)
            },
            CommitPhase::RemoveExpected => {
                let also_written = match &self.temporary_seen {
                    Some(snapshot) => snapshot_shows_written(
                        snapshot,
                        self.written,
                        &self.contents,
                    ),
                    None => false,
                };
                if removed {
                    self.fail_displaced()
                } else if also_written {
                    self.go(CommitPhase::RemoveWritten)
                } else {
                    self.go(CommitPhase::PreserveOrFail)
                }
            },
            CommitPhase::RemoveWritten => if removed {
                self.fail_displaced()
            } else {
                self.go(CommitPhase::PreserveOrFail)
            },
            CommitPhase::DropDisplaced => if removed {
                self.go(CommitPhase::SyncParent)
            } else {
                self.fail(CommitFailure::TemporaryChanged)
            },
            CommitPhase::CleanUp => self.go(CommitPhase::Finished),
            _ => self,
        }
    }

    /// Takes what came of the awaited action.
    pub fn step(self, event: FileEvent) -> (out: Self)
        ensures
            out == self.next(event),
    {
        match event {
            FileEvent::Parent { identity, same_name } => match self.phase {
                CommitPhase::OpenParent | CommitPhase::ReopenParent => self.parent_opened(
                    identity,
                    same_name,
                ),
                _ => self,
            },
            FileEvent::ParentUnopened(m) => match self.phase {
                CommitPhase::OpenParent => self.fail(CommitFailure::ParentUnopened(m)),
                CommitPhase::ReopenParent => self.fail(CommitFailure::ParentNotReopened(m)),
                _ => self,
            },
            FileEvent::ParentUnreadable(m) => match self.phase {
                CommitPhase::OpenParent => self.fail(CommitFailure::ParentUnreadable(m)),
                CommitPhase::ReopenParent => self.fail(CommitFailure::ParentNotReopened(m)),
                _ => self,
            },
            FileEvent::Looked(look) => match self.phase {
                CommitPhase::CheckTarget | CommitPhase::RecheckTarget | CommitPhase::CheckTemporary
                | CommitPhase::CheckDisplaced | CommitPhase::CheckCommitted
                | CommitPhase::CheckResult => self.looked_forward(look),
                CommitPhase::RecheckCommitted | CommitPhase::SeeTarget | CommitPhase::SeeTemporary
                | CommitPhase::SeeTargetAgain | CommitPhase::SeeTemporaryAgain
                | CommitPhase::SeeDisplaced => self.looked_back(look),
                _ => self,
            },
            FileEvent::Written { identity, version } => match self.phase {
                CommitPhase::WriteTemporary => {
                    let mut next = self;
                    next.written = Some((identity, version));
                    next.go(CommitPhase::RecheckTarget)
                },
                _ => self,
            },
            FileEvent::Done => match self.phase {
                CommitPhase::CreateTemporary => self.go(CommitPhase::WriteTemporary),
                CommitPhase::ExchangeIn => self.go(CommitPhase::CheckDisplaced),
                CommitPhase::ExchangeBack => self.go(CommitPhase::SeeTarget),
                CommitPhase::ExchangeForward => self.go(CommitPhase::SeeDisplaced),
                CommitPhase::Publish => self.go(CommitPhase::SyncParent),
                CommitPhase::SyncParent => self.go(CommitPhase::CheckResult),
                _ => self,
            },
            FileEvent::Collided => match self.phase {
                CommitPhase::Publish => self.fail(CommitFailure::CreatedDuringCommit),
                _ => self,
            },
            FileEvent::Failed(m) => match self.phase {
                CommitPhase::CreateTemporary | CommitPhase::WriteTemporary
                | CommitPhase::ExchangeIn | CommitPhase::Publish | CommitPhase::SyncParent =>
                    self.fail(CommitFailure::NotWritten(m)),
                CommitPhase::ExchangeBack => self.fail(CommitFailure::NotRestored(m)),
                CommitPhase::ExchangeForward => self.go(CommitPhase::Preserve),
                _ => self,
            },
            FileEvent::Removed(removed) => self.removed(removed),
            FileEvent::Preserved(kept) => match self.phase {
                CommitPhase::PreserveOrFail => if kept {
                    self.fail_displaced()
                } else {
                    self.fail(CommitFailure::UnknownNotPreserved)
                },
                CommitPhase::Preserve => self.fail_displaced(),
                _ => self,
            },
        }
    }
}

impl FileCommit {
    /// What every commit keeps: the temporary file is known from the moment it was written, a commit
    /// that undoes itself knows why, and one that has ended has either a result or a failure.
    pub open spec fn valid(self) -> bool {
        &&& self.written is Some <==> !(self.phase is OpenParent || self.phase is CheckTarget
            || self.phase is CreateTemporary || self.phase is WriteTemporary) && !(self.phase
            is Finished && self.written is None)
        &&& self.phase is Finished ==> (self.result is Some <==> self.failure is None)
        &&& self.result is Some ==> self.phase is Finished
        &&& self.result matches Some(s) ==> s.existed && shows_written(
            s,
            self.written,
            self.contents@,
        )
        &&& self.failure is Some ==> self.phase is Finished || self.phase is CleanUp
            || self.phase is DropDisplacedAfterFailure
        &&& (self.phase is CleanUp || self.phase is DropDisplacedAfterFailure) ==> self.failure
            is Some
        &&& self.undoing() ==> self.displaced is Some
    }

    /// Whether the commit found another file than the previewed one displaced, and undoes itself.
    pub open spec fn undoing(self) -> bool {
        self.phase is RecheckCommitted || self.phase is ExchangeBack || self.phase is SeeTarget
            || self.phase is SeeTemporary || self.phase is SeeTargetAgain || self.phase
            is SeeTemporaryAgain || self.phase is ExchangeForward || self.phase is SeeDisplaced
            || self.phase is RemoveExpected || self.phase is RemoveWritten || self.phase
            is PreserveOrFail || self.phase is Preserve
    }

    /// How many answers a commit still waits for, at most.
    pub open spec fn remaining(phase: CommitPhase) -> nat {
        match phase {
            CommitPhase::OpenParent => 27,
            CommitPhase::CheckTarget => 26,
            CommitPhase::CreateTemporary => 25,
            CommitPhase::WriteTemporary => 24,
            CommitPhase::RecheckTarget => 23,
            CommitPhase::ReopenParent => 22,
            CommitPhase::CheckTemporary => 21,
            CommitPhase::ExchangeIn => 20,
            CommitPhase::CheckDisplaced => 19,
            CommitPhase::CheckCommitted => 18,
            CommitPhase::RecheckCommitted => 17,
            CommitPhase::ExchangeBack => 16,
            CommitPhase::SeeTarget => 15,
            CommitPhase::SeeTemporary => 14,
            CommitPhase::SeeTargetAgain => 13,
            CommitPhase::SeeTemporaryAgain => 12,
            CommitPhase::ExchangeForward => 11,
            CommitPhase::SeeDisplaced => 10,
            CommitPhase::RemoveExpected => 9,
            CommitPhase::RemoveWritten => 8,
            CommitPhase::PreserveOrFail => 7,
            CommitPhase::Preserve => 6,
            CommitPhase::DropDisplacedAfterFailure => 5,
            CommitPhase::DropDisplaced => 4,
            CommitPhase::Publish => 4,
            CommitPhase::SyncParent => 3,
            CommitPhase::CheckResult => 2,
            CommitPhase::CleanUp => 1,
            CommitPhase::Finished => 0,
        }
    }

    /// What the commit came to; `None` while it goes on.
    pub fn finish(self) -> (out: Option<Result<FileSnapshot, ExtensionError>>)
        ensures
            !(self.phase is Finished) ==> out is None,
            self.phase is Finished ==> match self.result {
                Some(snapshot) => out == Some(Ok::<FileSnapshot, ExtensionError>(snapshot)),
                None => match self.failure {
                    Some(failure) => out matches Some(Err(e)) && e.is(
                        failure.report().0,
                        failure.report().1,
                    ),
                    None => out is None,
                },
            },
    {
        match self.phase {
            CommitPhase::Finished => match self.result {
                Some(snapshot) => Some(Ok(snapshot)),
                None => match self.failure {
                    Some(failure) => Some(Err(failure.error())),
                    None => None,
                },
            },
            _ => None,
        }
    }
}

/// Every commit keeps its invariant, whatever events it meets.
pub proof fn commit_stays_valid(start: FileCommit, events: Seq<FileEvent>)
    requires
        is_start(start, start.expected_parent, start.expected, start.contents),
    ensures
        start.run(events).valid(),
        start.run(events).expected == start.expected,
        start.run(events).contents == start.contents,
        start.run(events).expected_parent == start.expected_parent,
    decreases events.len(),
{
    if events.len() > 0 {
        commit_stays_valid(start, events.drop_last());
    }
}

/// A commit that succeeds left the target holding exactly the new contents.
pub proof fn commit_success_is_the_contents(start: FileCommit, events: Seq<FileEvent>)
    requires
        is_start(start, start.expected_parent, start.expected, start.contents),
        start.run(events).result is Some,
    ensures
        start.run(events).result->Some_0.existed,
        start.run(events).result->Some_0.bytes@ == start.contents@,
        start.run(events).phase is Finished,
        start.run(events).failure is None,
{
    commit_stays_valid(start, events);
}

/// A commit takes the target's place only after a look showed the target as it was previewed, with
/// the new contents already written.
pub proof fn commit_replaces_only_what_was_previewed(start: FileCommit, events: Seq<FileEvent>)
    requires
        is_start(start, start.expected_parent, start.expected, start.contents),
        start.run(events).phase is ReopenParent || start.run(events).phase is CheckTemporary
            || start.run(events).phase is ExchangeIn || start.run(events).phase is Publish,
    ensures
        exists|i: int|
            0 <= i < events.len() && {
                &&& start.run(events.take(i)).phase is RecheckTarget
                &&& #[trigger] events[i] matches FileEvent::Looked(look) && snapshot_verdict(
                    look,
                    start.expected,
                ) is None
            },
    decreases events.len(),
{
    if events.len() > 0 {
        let before = events.drop_last();
        let earlier = start.run(before);
        commit_stays_valid(start, before);
        if earlier.phase is ReopenParent || earlier.phase is CheckTemporary || earlier.phase
            is ExchangeIn || earlier.phase is Publish {
            commit_replaces_only_what_was_previewed(start, before);
            let i = choose|i: int|
                0 <= i < before.len() && {
                    &&& start.run(before.take(i)).phase is RecheckTarget
                    &&& #[trigger] before[i] matches FileEvent::Looked(look) && snapshot_verdict(
                        look,
                        start.expected,
                    ) is None
                };
            assert(before.take(i) =~= events.take(i));
            assert(events[i] == before[i]);
        } else {
            assert(events.take(events.len() - 1) =~= before);
            assert(earlier.phase is RecheckTarget);
            assert(events[events.len() - 1] == events.last());
        }
    }
}

/// The step that takes the target's place comes right after a look showed the temporary file to hold
/// the new contents.
pub proof fn commit_replaces_only_by_the_contents(commit: FileCommit, event: FileEvent)
    requires
        !(commit.phase is ExchangeIn || commit.phase is Publish),
        commit.next(event).phase is ExchangeIn || commit.next(event).phase is Publish,
    ensures
        commit.phase is CheckTemporary,
        event matches FileEvent::Looked(look) && seen(look) matches Some(snapshot)
            && shows_written(snapshot, commit.written, commit.contents@) && snapshot.bytes@
            == commit.contents@,
{
}

/// A commit that fails after it wrote the temporary file tries to remove that file before it ends.
pub proof fn commit_failure_cleans_up(commit: FileCommit, event: FileEvent)
    requires
        commit.valid(),
        !(commit.phase is Finished),
        commit.next(event).phase is Finished,
        commit.next(event).failure is Some,
        commit.next(event).written is Some,
    ensures
        commit.phase is CleanUp,
        FileCommit::awaited(commit.phase) is RemoveWritten,
{
}

/// Every answer brings a commit closer to its end, and any other event leaves it as it is: a commit
/// ends after at most 27 answers.
pub proof fn commit_ends(commit: FileCommit, event: FileEvent)
    ensures
        FileCommit::answers(FileCommit::awaited(commit.phase), event) ==> FileCommit::remaining(
            commit.next(event).phase,
        ) < FileCommit::remaining(commit.phase),
        !FileCommit::answers(FileCommit::awaited(commit.phase), event) ==> commit.next(event)
            == commit,
        FileCommit::remaining(commit.phase) <= 27,
{
}

/// The files that a commit deals with: what the target's name and the temporary name lead to, and
/// what was given a name of its own.
pub struct Files {
    pub target: Option<FileSnapshot>,
    pub temporary: Option<FileSnapshot>,
    pub kept: Seq<FileSnapshot>,
}

/// Whether a look at a name tells what is there. A look that fails tells nothing.
pub open spec fn tells(look: Look, there: Option<FileSnapshot>) -> bool {
    match look {
        Look::Found(snapshot) => there == Some(snapshot),
        Look::Missing(_) => there is None,
        Look::OpenFailed(_) | Look::ReadFailed(_) => true,
    }
}

/// Whether performing the awaited action of a commit led from some files to others, with the given
/// event.
pub open spec fn performs(commit: FileCommit, before: Files, event: FileEvent, after: Files) -> bool {
    let action = FileCommit::awaited(commit.phase);
    &&& FileCommit::answers(action, event)
    &&& match action {
        FileAction::OpenParent | FileAction::SyncParent | FileAction::Nothing => after == before,
        FileAction::LookAtTarget => after == before && (event matches FileEvent::Looked(look)
            && tells(look, before.target)),
        FileAction::LookAtTemporary => after == before && (event matches FileEvent::Looked(look)
            && tells(look, before.temporary)),
        FileAction::CreateTemporary => after == (Files { temporary: after.temporary, ..before }),
        FileAction::WriteTemporary => after == (Files { temporary: after.temporary, ..before })
            && (event matches FileEvent::Written { identity, version } ==> (before.target matches
            Some(file) ==> file.identity != Some(identity))),
        FileAction::Exchange => if event is Done {
            after == (Files { target: before.temporary, temporary: before.target, ..before })
        } else {
            after == before
        },
        FileAction::Publish => if event is Done {
            before.target is None && after == (Files {
                target: before.temporary,
                temporary: None,
                ..before
            })
        } else {
            after == before
        },
        FileAction::RemoveExpected => if event matches FileEvent::Removed(removed) && removed {
            (before.temporary matches Some(file) && shows_expected(file, commit.expected))
                && after == (Files { temporary: None, ..before })
        } else {
            after == before
        },
        FileAction::RemoveWritten => if event matches FileEvent::Removed(removed) && removed {
            (before.temporary matches Some(file) && shows_written(
                file,
                commit.written,
                commit.contents@,
            )) && after == (Files { temporary: None, ..before })
        } else {
            after == before
        },
        FileAction::Preserve => if event matches FileEvent::Preserved(kept) && kept {
            (before.temporary matches Some(file) && after == (Files {
                temporary: None,
                kept: before.kept.push(file),
                ..before
            }))
        } else {
            after == before
        },
    }
}

/// Whether an event is one of a failure that has nothing to do with what is in the files.
pub open spec fn is_mishap(event: FileEvent) -> bool {
    match event {
        FileEvent::Looked(Look::OpenFailed(_)) | FileEvent::Looked(Look::ReadFailed(_)) => true,
        FileEvent::Failed(_) => true,
        _ => false,
    }
}

/// Whether a file is another one than was previewed: a look at the target's name would say so, and so
/// would a look at it once it is displaced.
pub open spec fn is_changed(file: FileSnapshot, expected: FileSnapshot) -> bool {
    &&& snapshot_verdict(Look::Found(file), expected) is Some
    &&& displaced_verdict(Look::Found(file), expected) is Some
}

impl FileCommit {
    /// Whether the target has not been touched so far.
    pub open spec fn untouched(self) -> bool {
        self.phase is OpenParent || self.phase is CheckTarget || self.phase is CreateTemporary
            || self.phase is WriteTemporary || self.phase is RecheckTarget || self.phase
            is ReopenParent || self.phase is CheckTemporary || self.phase is ExchangeIn
            || self.phase is Publish
    }

    /// Whether the temporary name leads to the file that this commit wrote.
    pub open spec fn holds_written(self, file: Option<FileSnapshot>) -> bool {
        file matches Some(snapshot) && shows_written(snapshot, self.written, self.contents@)
    }

    /// What holds of a commit and the files while a changed file is at stake. `smooth` tells that
    /// there was no mishap.
    pub open spec fn keeps(self, files: Files, changed: FileSnapshot, smooth: bool) -> bool {
        let at_target = files.target == Some(changed);
        let displaced = files.temporary == Some(changed) && self.holds_written(files.target);
        &&& self.result is None
        &&& self.written matches Some((identity, _)) ==> changed.identity != Some(identity)
        &&& match self.phase {
            CommitPhase::OpenParent | CommitPhase::CheckTarget | CommitPhase::CreateTemporary
            | CommitPhase::WriteTemporary | CommitPhase::RecheckTarget | CommitPhase::ReopenParent
            | CommitPhase::CheckTemporary => at_target,
            CommitPhase::Publish => at_target,
            CommitPhase::ExchangeIn => at_target && self.holds_written(files.temporary)
                && self.expected.existed,
            CommitPhase::CheckDisplaced => displaced && self.expected.existed,
            CommitPhase::CheckCommitted | CommitPhase::RecheckCommitted
            | CommitPhase::ExchangeBack => displaced && self.expected.existed && self.displaced
                is Some,
            CommitPhase::SeeTarget => at_target && self.holds_written(files.temporary),
            CommitPhase::SeeTemporary => at_target && self.holds_written(files.temporary),
            CommitPhase::Preserve => at_target && self.displaced is Some && !smooth,
            CommitPhase::DropDisplacedAfterFailure => files.temporary == Some(changed)
                && self.expected.existed && self.failure is Some && !smooth,
            CommitPhase::CleanUp | CommitPhase::Finished => {
                &&& self.failure is Some
                &&& at_target || (files.temporary == Some(changed) && !smooth)
            },
            _ => false,
        }
    }
}

proof fn step_keeps(
    commit: FileCommit,
    before: Files,
    event: FileEvent,
    after: Files,
    changed: FileSnapshot,
    smooth: bool,
)
    requires
        commit.valid(),
        commit.keeps(before, changed, smooth),
        performs(commit, before, event, after),
        smooth ==> !is_mishap(event),
        is_changed(changed, commit.expected),
    ensures
        commit.next(event).valid(),
        commit.next(event).keeps(after, changed, smooth),
        commit.next(event).expected == commit.expected,
        commit.next(event).contents == commit.contents,
{
    assert(!shows_written(changed, commit.written, commit.contents@));
    if commit.expected.existed {
        assert(!shows_expected(changed, commit.expected));
    }
}

proof fn exchange_needs_a_file(start: FileCommit, events: Seq<FileEvent>)
    requires
        is_start(start, start.expected_parent, start.expected, start.contents),
        start.run(events).phase is ExchangeIn,
    ensures
        start.expected.existed,
    decreases events.len(),
{
    if events.len() > 0 {
        let before = events.drop_last();
        commit_stays_valid(start, before);
        if start.run(before).phase is ExchangeIn {
            exchange_needs_a_file(start, before);
        }
    }
}

/// A change that somebody makes after the preview is never overwritten. From the moment at which the
/// target's name leads to a changed file, before the commit has touched it, the commit does not
/// succeed, and the changed file is there at every moment. Where nothing but the change gets in the
/// way, the target's name leads to it in the end.
pub proof fn changed_file_is_never_overwritten(
    start: FileCommit,
    earlier: Seq<FileEvent>,
    files: Seq<Files>,
    events: Seq<FileEvent>,
    changed: FileSnapshot,
)
    requires
        is_start(start, start.expected_parent, start.expected, start.contents),
        start.run(earlier).untouched(),
        is_changed(changed, start.expected),
        start.run(earlier).written matches Some((identity, _)) ==> changed.identity != Some(
            identity,
        ),
        start.run(earlier).phase is ExchangeIn ==> start.run(earlier).holds_written(
            files[0].temporary,
        ),
        files.len() == events.len() + 1,
        files[0].target == Some(changed),
        forall|i: int|
            0 <= i < events.len() ==> performs(
                start.run(earlier).run(events.take(i)),
                files[i],
                #[trigger] events[i],
                files[i + 1],
            ),
    ensures
        ({
            let commit = start.run(earlier).run(events);
            let last = files.last();
            &&& commit.result is None
            &&& commit.phase is Finished ==> commit.failure is Some
            &&& last.target == Some(changed) || last.temporary == Some(changed)
            &&& commit.phase is Finished && (forall|i: int|
                0 <= i < events.len() ==> !is_mishap(#[trigger] events[i])) ==> last.target == Some(
                changed,
            )
        }),
{
    let commit = start.run(earlier);
    commit_stays_valid(start, earlier);
    if commit.phase is ExchangeIn {
        exchange_needs_a_file(start, earlier);
    }
    let smooth = forall|i: int| 0 <= i < events.len() ==> !is_mishap(#[trigger] events[i]);
    run_keeps(commit, files, events, changed, smooth);
}

proof fn run_keeps(
    commit: FileCommit,
    files: Seq<Files>,
    events: Seq<FileEvent>,
    changed: FileSnapshot,
    smooth: bool,
)
    requires
        commit.valid(),
        commit.keeps(files[0], changed, smooth),
        is_changed(changed, commit.expected),
        files.len() == events.len() + 1,
        smooth ==> forall|i: int| 0 <= i < events.len() ==> !is_mishap(#[trigger] events[i]),
        forall|i: int|
            0 <= i < events.len() ==> performs(
                commit.run(events.take(i)),
                files[i],
                #[trigger] events[i],
                files[i + 1],
            ),
    ensures
        commit.run(events).valid(),
        commit.run(events).keeps(files.last(), changed, smooth),
        commit.run(events).expected == commit.expected,
    decreases events.len(),
{
    if events.len() > 0 {
        let n = events.len() - 1;
        let fewer = events.drop_last();
        let sooner = files.drop_last();
        assert forall|i: int| 0 <= i < fewer.len() implies performs(
            commit.run(fewer.take(i)),
            sooner[i],
            #[trigger] fewer[i],
            sooner[i + 1],
        ) by {
            assert(fewer.take(i) =~= events.take(i));
            assert(fewer[i] == events[i]);
        }
        if smooth {
            assert forall|i: int| 0 <= i < fewer.len() implies !is_mishap(#[trigger] fewer[i]) by {
                assert(fewer[i] == events[i]);
            }
        }
        run_keeps(commit, sooner, fewer, changed, smooth);
        assert(events.take(n) =~= fewer);
        assert(performs(commit.run(events.take(n)), files[n], events[n], files[n + 1]));
        step_keeps(commit.run(fewer), files[n], events[n], files[n + 1], changed, smooth);
    }
}

/// When a commit succeeds, the target's name leads to a file with exactly the new contents.
pub proof fn success_leaves_the_contents(
    commit: FileCommit,
    before: Files,
    event: FileEvent,
    after: Files,
)
    requires
        commit.valid(),
        commit.result is None,
        performs(commit, before, event, after),
        commit.next(event).result is Some,
    ensures
        after.target == commit.next(event).result,
        after.target->Some_0.existed,
        after.target->Some_0.bytes@ == commit.contents@,
{
}

impl FileCommit {
    /// Whether the events and the files are those of this commit, with nobody else about.
    pub open spec fn goes(self, files: Seq<Files>, events: Seq<FileEvent>) -> bool {
        &&& files.len() == events.len() + 1
        &&& forall|i: int|
            0 <= i < events.len() ==> performs(
                self.run(events.take(i)),
                files[i],
                #[trigger] events[i],
                files[i + 1],
            )
    }
}

/// When a commit has succeeded as a whole, the target's name leads to a file with exactly the new
/// contents.
pub proof fn finished_commit_leaves_the_contents(
    start: FileCommit,
    files: Seq<Files>,
    events: Seq<FileEvent>,
)
    requires
        is_start(start, start.expected_parent, start.expected, start.contents),
        start.goes(files, events),
        start.run(events).result is Some,
    ensures
        files.last().target matches Some(file) && file.existed && file.bytes@ == start.contents@,
{
    if events.len() > 0 {
        let n = events.len() - 1;
        let fewer = events.drop_last();
        commit_stays_valid(start, fewer);
        assert(events.take(n) =~= fewer);
        assert(performs(start.run(events.take(n)), files[n], events[n], files[n + 1]));
        success_leaves_the_contents(start.run(fewer), files[n], events[n], files[n + 1]);
    }
}

/// Where the file that the commit displaced is not the one that was previewed, the commit never
/// succeeds, whatever happens then.
pub proof fn displaced_change_never_succeeds(commit: FileCommit, events: Seq<FileEvent>)
    requires
        commit.valid(),
        commit.phase is CheckCommitted || commit.undoing(),
        commit.displaced is Some,
    ensures
        commit.run(events).result is None,
        commit.run(events).phase is Finished ==> commit.run(events).failure is Some,
        !(commit.run(events).phase is DropDisplaced),
{
    displaced_change_stays_known(commit, events);
}

proof fn displaced_change_stays_known(commit: FileCommit, events: Seq<FileEvent>)
    requires
        commit.valid(),
        commit.phase is CheckCommitted || commit.undoing(),
        commit.displaced is Some,
    ensures
        commit.run(events).valid(),
        ({
            let now = commit.run(events);
            ((now.phase is CheckCommitted || now.undoing()) && now.displaced is Some) || (
            now.failure is Some)
        }),
    decreases events.len(),
{
    if events.len() > 0 {
        displaced_change_stays_known(commit, events.drop_last());
    }
}

/// Two versions tell of the same contents exactly where size and time of change are the same.
pub proof fn contents_are_known_by_size_and_time(left: FileVersion, right: FileVersion)
    ensures
        same_content_version(left, right) <==> left.size == right.size && left.modified_seconds
            == right.modified_seconds && left.modified_nanos == right.modified_nanos,
{
}

/// A committed file is accepted exactly where it can be read and is the file that was written, with its
/// contents.
pub proof fn committed_file_is_the_written_one(
    look: Look,
    identity: FileIdentity,
    version: FileVersion,
    contents: Seq<u8>,
)
    ensures
        committed_verdict(look, Some((identity, version)), contents) is None <==> {
            &&& look is Found
            &&& look->Found_0.bytes@ == contents
            &&& look->Found_0.identity == Some(identity)
            &&& look->Found_0.version matches Some(now) && now.size == version.size
                && now.modified_seconds == version.modified_seconds && now.modified_nanos
                == version.modified_nanos
        },
        committed_verdict(look, None, contents) is Some,
        committed_verdict(look, Some((identity, version)), contents) matches Some(failure) ==> (
        look is Found <==> failure is CommittedChanged) && (!(look is Found) <==> failure
            is CommittedUnreadable),
{
}

/// A displaced file is accepted exactly where it can be read and is the one that was previewed, unchanged.
pub proof fn displaced_file_is_the_previewed_one(look: Look, expected: FileSnapshot)
    ensures
        displaced_verdict(look, expected) is None ==> {
            &&& look is Found
            &&& expected.existed
            &&& look->Found_0.bytes@ == expected.bytes@
            &&& look->Found_0.identity == expected.identity
            &&& look->Found_0.version is Some
            &&& expected.version is Some
            &&& look->Found_0.version->Some_0.size == expected.version->Some_0.size
            &&& look->Found_0.version->Some_0.modified_seconds
                == expected.version->Some_0.modified_seconds
            &&& look->Found_0.version->Some_0.modified_nanos
                == expected.version->Some_0.modified_nanos
        },
        look matches Look::Found(current) ==> (current == expected && expected.existed
            && expected.version is Some ==> displaced_verdict(look, expected) is None),
        displaced_verdict(look, expected) matches Some(failure) ==> (look is Found <==> failure
            is DisplacedChanged) && (!(look is Found) <==> failure is DisplacedUnreadable),
{
}

/// What is told of a failed commit is a conflict, except where the file could not be written or put back;
/// what the system said of it stands at the end.
pub proof fn commit_failures_tell_the_cause(failure: CommitFailure)
    ensures
        failure is NotWritten || failure is NotRestored ==> failure.report().0
            == "file_write_failed"@,
        !(failure is NotWritten || failure is NotRestored) ==> failure.report().0
            == "file_conflict"@,
        failure matches CommitFailure::NotWritten(m) ==> failure.report().1 == m@,
        failure matches CommitFailure::NotRestored(m) ==> failure.report().1
            == "unable to restore file after conflict: "@ + m@,
        failure matches CommitFailure::ParentUnopened(m) ==> failure.report().1
            == "unable to open file parent: "@ + m@,
        failure matches CommitFailure::ParentUnreadable(m) ==> failure.report().1
            == "unable to validate file parent: "@ + m@,
        failure matches CommitFailure::TargetUnreadable(m) ==> failure.report().1
            == "unable to validate file: "@ + m@,
        failure matches CommitFailure::ParentNotReopened(m) ==> failure.report().1
            == "unable to revalidate file parent: "@ + m@,
        failure matches CommitFailure::CommittedUnreadable(m) ==> failure.report().1
            == "unable to validate committed file: "@ + m@,
        failure matches CommitFailure::DisplacedUnreadable(m) ==> failure.report().1
            == "unable to validate displaced file: "@ + m@,
        failure is ParentChanged ==> failure.report().1 == "file parent changed after preview"@,
        failure is TargetCreated ==> failure.report().1 == "file was created after preview"@,
        failure is TargetChanged ==> failure.report().1 == "file changed after preview"@,
        failure is ParentMoved ==> failure.report().1 == "file parent changed during commit"@,
        failure is CommittedChanged ==> failure.report().1 == "target changed during file commit"@,
        failure is DisplacedChanged ==> failure.report().1 == "file changed during atomic commit"@,
        failure is UnknownNotPreserved ==> failure.report().1
            == "unable to preserve concurrent file during rollback"@,
        failure is TemporaryChanged ==> failure.report().1
            == "temporary file changed during commit"@,
        failure is CreatedDuringCommit ==> failure.report().1 == "file was created during commit"@,
        failure is ResultUnreadable ==> failure.report().1 == "unable to snapshot committed file"@,
        failure is ResultChanged ==> failure.report().1 == "target changed during commit"@,
{
}

/// A target is as it was previewed exactly where it is the same file with the same bytes, or was not there
/// and still is not; what was created since, what was changed and what cannot be read are told apart.
pub proof fn changed_targets_are_told_apart(look: Look, expected: FileSnapshot)
    ensures
        snapshot_verdict(look, expected) is None <==> match look {
            Look::Missing(_) => !expected.existed,
            Look::Found(current) => expected.existed && current.identity == expected.identity
                && current.version == expected.version && current.bytes@ == expected.bytes@,
            _ => false,
        },
        snapshot_verdict(look, expected) matches Some(failure) ==> {
            &&& failure is TargetCreated <==> !expected.existed && (look is Found
                || look is ReadFailed)
            &&& failure is TargetChanged <==> expected.existed && look is Found
            &&& failure is TargetUnreadable || failure is TargetCreated || failure is TargetChanged
        },
{
}

/// A commit goes on only in the directory that was previewed: it is opened before anything is written, and
/// has to be there under its name, still the same, before the file is put in place.
pub proof fn commit_stays_in_its_directory(
    commit: FileCommit,
    identity: FileIdentity,
    same_name: bool,
)
    ensures
        ({
            let found = FileEvent::Parent { identity, same_name };
            let same = commit.expected_parent == Some(identity);
            &&& commit.phase is OpenParent && same ==> commit.next(found).phase is CheckTarget
            &&& commit.phase is OpenParent && !same ==> commit.next(found).failure == Some(
                CommitFailure::ParentChanged,
            )
            &&& commit.phase is ReopenParent && same && same_name ==> commit.next(found).phase
                is CheckTemporary
            &&& commit.phase is ReopenParent && !(same && same_name) ==> commit.next(found).failure
                == Some(CommitFailure::ParentMoved)
        }),
{
}

/// A commit whose steps succeed goes in order: it looks at the target, writes beside it, looks again, puts
/// the file in place, in exchange for the one that was there or as a new one, and looks at the result.
pub proof fn commit_goes_in_order(
    commit: FileCommit,
    look: Look,
    identity: FileIdentity,
    version: FileVersion,
)
    ensures
        commit.phase is CheckTarget && snapshot_verdict(look, commit.expected) is None ==> commit.next(
            FileEvent::Looked(look),
        ).phase is CreateTemporary,
        commit.phase is CreateTemporary ==> commit.next(FileEvent::Done).phase is WriteTemporary,
        commit.phase is WriteTemporary ==> commit.next(
            FileEvent::Written { identity, version },
        ).phase is RecheckTarget && commit.next(FileEvent::Written { identity, version }).written
            == Some((identity, version)),
        commit.phase is RecheckTarget && snapshot_verdict(look, commit.expected) is None
            ==> commit.next(FileEvent::Looked(look)).phase is ReopenParent,
        commit.phase is CheckTemporary && committed_verdict(look, commit.written, commit.contents@)
            is None ==> {
            let then = commit.next(FileEvent::Looked(look)).phase;
            &&& commit.expected.existed ==> then is ExchangeIn
            &&& !commit.expected.existed ==> then is Publish
        },
        commit.phase is ExchangeIn ==> commit.next(FileEvent::Done).phase is CheckDisplaced,
        commit.phase is CheckDisplaced ==> commit.next(FileEvent::Looked(look)).phase
            is CheckCommitted && commit.next(FileEvent::Looked(look)).displaced
            == displaced_verdict(look, commit.expected),
        commit.phase is CheckCommitted && commit.displaced is Some && committed_verdict(
            look,
            commit.written,
            commit.contents@,
        ) is None ==> commit.next(FileEvent::Looked(look)).phase is RecheckCommitted,
        commit.phase is RecheckCommitted && committed_verdict(look, commit.written, commit.contents@)
            is None ==> commit.next(FileEvent::Looked(look)).phase is ExchangeBack,
        commit.phase is DropDisplaced ==> commit.next(FileEvent::Removed(true)).phase is SyncParent,
        commit.phase is DropDisplaced ==> commit.next(FileEvent::Removed(false)).failure == Some(
            CommitFailure::TemporaryChanged,
        ),
        commit.phase is Publish ==> commit.next(FileEvent::Done).phase is SyncParent,
        commit.phase is Publish ==> commit.next(FileEvent::Collided).failure == Some(
            CommitFailure::CreatedDuringCommit,
        ),
        commit.phase is SyncParent ==> commit.next(FileEvent::Done).phase is CheckResult,
{
}

/// A step that the system refuses ends a commit with what the system said.
pub proof fn refused_steps_end_a_commit(commit: FileCommit, m: String)
    ensures
        commit.phase is OpenParent ==> commit.next(FileEvent::ParentUnopened(m)).failure == Some(
            CommitFailure::ParentUnopened(m),
        ) && commit.next(FileEvent::ParentUnreadable(m)).failure == Some(
            CommitFailure::ParentUnreadable(m),
        ),
        commit.phase is ReopenParent ==> commit.next(FileEvent::ParentUnopened(m)).failure == Some(
            CommitFailure::ParentNotReopened(m),
        ) && commit.next(FileEvent::ParentUnreadable(m)).failure == Some(
            CommitFailure::ParentNotReopened(m),
        ),
        commit.phase is CreateTemporary || commit.phase is WriteTemporary || commit.phase
            is ExchangeIn || commit.phase is Publish || commit.phase is SyncParent ==> commit.next(
            FileEvent::Failed(m),
        ).failure == Some(CommitFailure::NotWritten(m)),
        commit.phase is ExchangeBack ==> commit.next(FileEvent::Failed(m)).failure == Some(
            CommitFailure::NotRestored(m),
        ),
        commit.phase is PreserveOrFail ==> commit.next(FileEvent::Preserved(false)).failure == Some(
            CommitFailure::UnknownNotPreserved,
        ),
{
}

}
