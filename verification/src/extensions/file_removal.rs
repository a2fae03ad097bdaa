//! Removing a file only if it is the expected one, and keeping files that nobody here wrote.
//!
//! A file is first given a name that nobody else knows, and looked at under that name. Only the
//! expected file is removed; any other gets its old name back. As in
//! [`file_commit`](super::file_commit), the caller performs the actions.

use vstd::prelude::*;
use super::file_commit::{
    seen, shows, snapshot_shows, tells, FileIdentity, FileSnapshot, FileVersion, Look,
};
use super::runtime::EXTENSION_FILE_BYTES;
use crate::text::{decimal, decimal_text, join};

verus! {

/// How many names are tried.
pub const NAME_ATTEMPTS: u32 = 128;

/// What came of giving a file another name.
#[derive(Debug)]
pub enum RenameResult {
    Done,
    /// There was no file.
    Missing,
    /// The name was taken.
    Collided,
    Failed,
}

/// What a removal waits for.
#[derive(Clone, Copy, Debug, PartialEq, Eq, Structural)]
pub enum RemovalPhase {
    /// The file is to be given a name of its own; the number tells which attempt this is.
    MoveAside(u32),
    /// The file is to be looked at under that name.
    Look,
    /// The file is to be removed.
    Unlink,
    /// The file is to be given its old name back, if that is free.
    PutBack,
    /// The removal has ended; whether the expected file is gone.
    Finished(bool),
}

/// The removal of one file, if it is the expected one.
#[derive(Debug)]
pub struct FileRemoval {
    pub identity: FileIdentity,
    pub version: FileVersion,
    pub contents: Vec<u8>,
    pub phase: RemovalPhase,
}

/// What came of the action that a removal waited for.
#[derive(Debug)]
pub enum RemovalEvent {
    Renamed(RenameResult),
    Looked(Look),
    Unlinked(bool),
}

/// The phase after an attempt to give a file another name.
pub open spec fn after_rename(attempt: u32, result: RenameResult, done: RemovalPhase) -> RemovalPhase {
    match result {
        RenameResult::Done => done,
        RenameResult::Missing => RemovalPhase::Finished(true),
        RenameResult::Failed => RemovalPhase::Finished(false),
        RenameResult::Collided => if attempt + 1 < NAME_ATTEMPTS {
            RemovalPhase::MoveAside((attempt + 1) as u32)
        } else {
            RemovalPhase::Finished(false)
        },
    }
}

fn rename_phase(attempt: u32, result: RenameResult, done: RemovalPhase) -> (out: RemovalPhase)
    ensures
        out == after_rename(attempt, result, done),
{
    match result {
        RenameResult::Done => done,
        RenameResult::Missing => RemovalPhase::Finished(true),
        RenameResult::Failed => RemovalPhase::Finished(false),
        RenameResult::Collided => if attempt < NAME_ATTEMPTS - 1 {
            RemovalPhase::MoveAside(attempt + 1)
        } else {
            RemovalPhase::Finished(false)
        },
    }
}

/// Begins to remove a file if it is the expected one.
pub fn remove_file_if_matches(identity: FileIdentity, version: FileVersion, contents: Vec<u8>) -> (out:
    FileRemoval)
    ensures
        out == (FileRemoval { identity, version, contents, phase: RemovalPhase::MoveAside(0) }),
{
    FileRemoval { identity, version, contents, phase: RemovalPhase::MoveAside(0) }
}

impl FileRemoval {
    /// Whether a look shows the expected file.
    pub open spec fn recognises(self, look: Look) -> bool {
        seen(look) matches Some(snapshot) && shows(
            snapshot,
            self.identity,
            self.version,
            self.contents@,
        )
    }

    /// The removal after an event. An event that does not answer the awaited action changes nothing.
    pub open spec fn next(self, event: RemovalEvent) -> Self {
        FileRemoval {
            phase: match (self.phase, event) {
                (RemovalPhase::MoveAside(attempt), RemovalEvent::Renamed(result)) => after_rename(
                    attempt,
                    result,
                    RemovalPhase::Look,
                ),
                (RemovalPhase::Look, RemovalEvent::Looked(look)) => if self.recognises(look) {
                    RemovalPhase::Unlink
                } else {
                    RemovalPhase::PutBack
                },
                (RemovalPhase::Unlink, RemovalEvent::Unlinked(gone)) => if gone {
                    RemovalPhase::Finished(true)
                } else {
                    RemovalPhase::PutBack
                },
                (RemovalPhase::PutBack, RemovalEvent::Renamed(_)) => RemovalPhase::Finished(false),
                _ => self.phase,
            },
            ..self
        }
    }

    /// Takes what came of the awaited action.
    pub fn step(self, event: RemovalEvent) -> (out: Self)
        ensures
            out == self.next(event),
    {
        let phase = match event {
            RemovalEvent::Renamed(result) => match self.phase {
                RemovalPhase::MoveAside(attempt) => rename_phase(
                    attempt,
                    result,
                    RemovalPhase::Look,
                ),
                RemovalPhase::PutBack => RemovalPhase::Finished(false),
                other => other,
            },
            RemovalEvent::Looked(look) => match self.phase {
                RemovalPhase::Look => {
                    let expected = match &look {
                        Look::Found(snapshot) => snapshot_shows(
                            snapshot,
                            self.identity,
                            self.version,
                            &self.contents,
                        ),
                        _ => false,
                    };
                    if expected {
                        RemovalPhase::Unlink
                    } else {
                        RemovalPhase::PutBack
                    }
                },
                other => other,
            },
            RemovalEvent::Unlinked(gone) => match self.phase {
                RemovalPhase::Unlink => if gone {
                    RemovalPhase::Finished(true)
                } else {
                    RemovalPhase::PutBack
                },
                other => other,
            },
        };
        FileRemoval { phase, ..self }
    }
}

/// A file is removed only right after a look showed it to be the expected one.
pub proof fn removal_is_of_the_expected_file(removal: FileRemoval, event: RemovalEvent)
    requires
        !(removal.phase is Unlink),
        removal.next(event).phase is Unlink,
    ensures
        removal.phase is Look,
        event matches RemovalEvent::Looked(look) && removal.recognises(look),
{
}

/// A file that is not the expected one gets its old name back.
pub proof fn unknown_file_is_put_back(removal: FileRemoval, look: Look)
    requires
        removal.phase is Look,
        !removal.recognises(look),
    ensures
        removal.next(RemovalEvent::Looked(look)).phase is PutBack,
{
}

/// The files that a removal deals with: what the file's name leads to, and what the name leads to
/// that it was given for the time being.
pub struct RemovalFiles {
    pub name: Option<FileSnapshot>,
    pub aside: Option<FileSnapshot>,
}

/// Whether performing the awaited action of a removal led from some files to others, with the given
/// event.
pub open spec fn removes(
    removal: FileRemoval,
    before: RemovalFiles,
    event: RemovalEvent,
    after: RemovalFiles,
) -> bool {
    match (removal.phase, event) {
        (RemovalPhase::MoveAside(_), RemovalEvent::Renamed(result)) => match result {
            RenameResult::Done => before.name is Some && after == (RemovalFiles {
                name: None,
                aside: before.name,
            }),
            RenameResult::Missing => before.name is None && after == before,
            RenameResult::Collided | RenameResult::Failed => after == before,
        },
        (RemovalPhase::Look, RemovalEvent::Looked(look)) => tells(look, before.aside) && after
            == before,
        (RemovalPhase::Unlink, RemovalEvent::Unlinked(gone)) => after == (if gone {
            RemovalFiles { aside: None, ..before }
        } else {
            before
        }),
        (RemovalPhase::PutBack, RemovalEvent::Renamed(result)) => if result is Done {
            before.name is None && after == (RemovalFiles { name: before.aside, aside: None })
        } else {
            after == before
        },
        _ => false,
    }
}

impl FileRemoval {
    /// The removal after a sequence of events.
    pub open spec fn run(self, events: Seq<RemovalEvent>) -> Self
        decreases events.len(),
    {
        if events.len() == 0 {
            self
        } else {
            self.run(events.drop_last()).next(events.last())
        }
    }

    /// Whether the events and the files are those of this removal, with nobody else about.
    pub open spec fn goes(self, files: Seq<RemovalFiles>, events: Seq<RemovalEvent>) -> bool {
        &&& files.len() == events.len() + 1
        &&& forall|i: int|
            0 <= i < events.len() ==> removes(
                self.run(events.take(i)),
                files[i],
                #[trigger] events[i],
                files[i + 1],
            )
    }

    /// What holds of a removal and its files at every moment. `first` is what the name led to.
    pub open spec fn stands(self, files: RemovalFiles, first: Option<FileSnapshot>) -> bool {
        match self.phase {
            RemovalPhase::MoveAside(_) => files.name == first,
            RemovalPhase::Look | RemovalPhase::PutBack => files.name is None && files.aside
                == first,
            RemovalPhase::Unlink => files.name is None && files.aside == first && (
            first matches Some(file) && shows(file, self.identity, self.version, self.contents@)),
            RemovalPhase::Finished(true) => files.name is None && (first matches Some(file)
                ==> shows(file, self.identity, self.version, self.contents@)),
            RemovalPhase::Finished(false) => files.name == first || files.aside == first,
        }
    }
}

proof fn removal_stands(
    start: FileRemoval,
    files: Seq<RemovalFiles>,
    events: Seq<RemovalEvent>,
)
    requires
        start.phase is MoveAside,
        start.goes(files, events),
    ensures
        start.run(events).stands(files.last(), files[0].name),
        start.run(events).identity == start.identity,
        start.run(events).version == start.version,
        start.run(events).contents == start.contents,
    decreases events.len(),
{
    if events.len() > 0 {
        let n = events.len() - 1;
        let fewer = events.drop_last();
        let sooner = files.drop_last();
        assert forall|i: int| 0 <= i < fewer.len() implies removes(
            start.run(fewer.take(i)),
            sooner[i],
            #[trigger] fewer[i],
            sooner[i + 1],
        ) by {
            assert(fewer.take(i) =~= events.take(i));
            assert(fewer[i] == events[i]);
        }
        removal_stands(start, sooner, fewer);
        assert(events.take(n) =~= fewer);
        assert(removes(start.run(events.take(n)), files[n], events[n], files[n + 1]));
    }
}

/// A removal that says that the file is gone leaves its name free, and what was there was the expected
/// file. One that does not leaves the file there, under its name or the one that it was given.
pub proof fn removed_file_is_gone(
    start: FileRemoval,
    files: Seq<RemovalFiles>,
    events: Seq<RemovalEvent>,
)
    requires
        start.phase is MoveAside,
        start.goes(files, events),
    ensures
        start.run(events).phase == RemovalPhase::Finished(true) ==> files.last().name is None && (
        files[0].name matches Some(file) ==> shows(
            file,
            start.identity,
            start.version,
            start.contents@,
        )),
        start.run(events).phase == RemovalPhase::Finished(false) ==> files.last().name
            == files[0].name || files.last().aside == files[0].name,
{
    removal_stands(start, files, events);
}

/// Where the keeping of a file stands: the attempt that is to be made, or how it ended.
#[derive(Clone, Copy, Debug, PartialEq, Eq, Structural)]
pub enum Preservation {
    Attempt(u32),
    Finished(bool),
}

/// One attempt to keep a file under a name of its own. A file that is gone counts as kept.
pub fn preserve_unknown_file(state: Preservation, result: RenameResult) -> (out: Preservation)
    ensures
        out == match state {
            Preservation::Attempt(n) => match result {
                RenameResult::Done => Preservation::Finished(true),
                RenameResult::Missing => Preservation::Finished(true),
                RenameResult::Failed => Preservation::Finished(false),
                RenameResult::Collided => if n + 1 < NAME_ATTEMPTS {
                    Preservation::Attempt((n + 1) as u32)
                } else {
                    Preservation::Finished(false)
                },
            },
            Preservation::Finished(kept) => Preservation::Finished(kept),
        },
{
    match state {
        Preservation::Attempt(n) => match result {
            RenameResult::Done => Preservation::Finished(true),
            RenameResult::Missing => Preservation::Finished(true),
            RenameResult::Failed => Preservation::Finished(false),
            RenameResult::Collided => if n < NAME_ATTEMPTS - 1 {
                Preservation::Attempt(n + 1)
            } else {
                Preservation::Finished(false)
            },
        },
        Preservation::Finished(kept) => Preservation::Finished(kept),
    }
}

/// What came of creating a temporary file.
#[derive(Debug)]
pub enum CreateResult {
    Done,
    Collided,
    Failed(String),
}

/// Where the creation of a temporary file stands.
#[derive(Debug)]
pub enum Allocation {
    Attempt(u32),
    Created,
    Failed(String),
}

/// One attempt to create a temporary file under a new name.
pub fn create_temporary_file(attempt: u32, result: CreateResult) -> (out: Allocation)
    ensures
        match result {
            CreateResult::Done => out is Created,
            CreateResult::Failed(message) => out == Allocation::Failed(message),
            CreateResult::Collided => if attempt + 1 < NAME_ATTEMPTS {
                out == Allocation::Attempt((attempt + 1) as u32)
            } else {
                out matches Allocation::Failed(message) && message@
                    == "unable to allocate an extension file temporary"@
            },
        },
{
    match result {
        CreateResult::Done => Allocation::Created,
        CreateResult::Failed(message) => Allocation::Failed(message),
        CreateResult::Collided => if attempt < NAME_ATTEMPTS - 1 {
            Allocation::Attempt(attempt + 1)
        } else {
            Allocation::Failed("unable to allocate an extension file temporary".to_owned())
        },
    }
}

/// The name of a file that is put aside.
pub open spec fn sidecar_text(prefix: Seq<char>, pid: u64, sequence: u64, attempt: u64) -> Seq<char> {
    ".bootty-"@ + prefix + "-"@ + decimal(pid as nat) + "-"@ + decimal(sequence as nat) + "-"@
        + decimal(attempt as nat)
}

/// The name of a file that is put aside: it tells why, and by which process.
pub fn next_file_sidecar(prefix: &str, pid: u64, sequence: u64, attempt: u64) -> (out: String)
    ensures
        out@ == sidecar_text(prefix@, pid, sequence, attempt),
{
    let a = join(".bootty-", prefix);
    let b = join(&a, "-");
    let c = join(&b, &decimal_text(pid));
    let d = join(&c, "-");
    let e = join(&d, &decimal_text(sequence));
    let f = join(&e, "-");
    join(&f, &decimal_text(attempt))
}

/// The name of a temporary file.
pub fn temporary_name(stem: &str, pid: u64, sequence: u64) -> (out: String)
    ensures
        out@ == "."@ + stem@ + ".bootty-"@ + decimal(pid as nat) + "-"@ + decimal(sequence as nat)
            + ".tmp"@,
{
    let a = join(".", stem);
    let b = join(&a, ".bootty-");
    let c = join(&b, &decimal_text(pid));
    let d = join(&c, "-");
    let e = join(&d, &decimal_text(sequence));
    join(&e, ".tmp")
}

/// What the system tells of an open file.
#[derive(Clone, Copy, Debug, PartialEq, Eq, Structural)]
pub struct FileStat {
    pub is_file: bool,
    pub identity: FileIdentity,
    pub version: FileVersion,
}

/// Why a file was not read.
#[derive(Debug)]
pub enum ReadFailure {
    /// It is not a regular file.
    NotAFile,
    /// It is larger than the host reads.
    TooLarge,
    /// It changed while it was read.
    Changed,
}

impl ReadFailure {
    /// The message of a failure.
    pub fn message(&self) -> (out: &'static str)
        ensures
            out@ == match *self {
                ReadFailure::NotAFile => "extension file target is not a regular file"@,
                ReadFailure::TooLarge => "file exceeds host read limit"@,
                ReadFailure::Changed => "extension file changed while it was being read"@,
            },
    {
        match self {
            ReadFailure::NotAFile => "extension file target is not a regular file",
            ReadFailure::TooLarge => "file exceeds host read limit",
            ReadFailure::Changed => "extension file changed while it was being read",
        }
    }
}

/// Checks what was read of an open file. The caller reads at most one byte over the limit.
pub fn read_open_file(stat: &FileStat, bytes: Vec<u8>) -> (out: Result<Vec<u8>, ReadFailure>)
    ensures
        match out {
            Ok(read) => stat.is_file && bytes@.len() <= EXTENSION_FILE_BYTES && read == bytes,
            Err(failure) => if !stat.is_file {
                failure is NotAFile
            } else {
                bytes@.len() > EXTENSION_FILE_BYTES && failure is TooLarge
            },
        },
{
    if !stat.is_file {
        return Err(ReadFailure::NotAFile);
    }
    if bytes.len() > EXTENSION_FILE_BYTES {
        return Err(ReadFailure::TooLarge);
    }
    Ok(bytes)
}

/// A file as it was read, where the system told the same of it before and after.
pub fn snapshot_file(before: &FileStat, bytes: Vec<u8>, after: &FileStat) -> (out: Result<
    FileSnapshot,
    ReadFailure,
>)
    ensures
        match out {
            Ok(snapshot) => {
                &&& before.is_file
                &&& bytes@.len() <= EXTENSION_FILE_BYTES
                &&& before.identity == after.identity && before.version == after.version
                &&& snapshot.existed
                &&& snapshot.identity == Some(after.identity)
                &&& snapshot.version == Some(after.version)
                &&& snapshot.bytes == bytes
            },
            Err(failure) => if !before.is_file {
                failure is NotAFile
            } else if bytes@.len() > EXTENSION_FILE_BYTES {
                failure is TooLarge
            } else {
                (before.identity != after.identity || before.version != after.version) && failure
                    is Changed
            },
        },
{
    let read = match read_open_file(before, bytes) {
        Ok(read) => read,
        Err(failure) => {
            return Err(failure);
        },
    };
    if before.identity != after.identity || before.version != after.version {
        return Err(ReadFailure::Changed);
    }
    Ok(
        FileSnapshot {
            existed: true,
            identity: Some(after.identity),
            version: Some(after.version),
            bytes: read,
        },
    )
}

/// A file that is set aside has a hidden name, made of what it is set aside for and of three numbers.
pub proof fn set_aside_under_a_hidden_name(
    prefix: Seq<char>,
    pid: u64,
    sequence: u64,
    attempt: u64,
)
    ensures
        sidecar_text(prefix, pid, sequence, attempt) == ".bootty-"@ + prefix + "-"@ + decimal(
            pid as nat,
        ) + "-"@ + decimal(sequence as nat) + "-"@ + decimal(attempt as nat),
        sidecar_text(prefix, pid, sequence, attempt)[0] == '.',
{
    reveal_strlit(".bootty-");
    assert(sidecar_text(prefix, pid, sequence, attempt)[0] == ".bootty-"@[0]);
}

/// A name that is taken is followed by the next, up to 128 of them; a file that is gone counts as removed,
/// and any other failure ends the removal.
pub proof fn taken_names_are_passed(attempt: u32, result: RenameResult, done: RemovalPhase)
    ensures
        result is Done ==> after_rename(attempt, result, done) == done,
        result is Missing ==> after_rename(attempt, result, done) == RemovalPhase::Finished(true),
        result is Failed ==> after_rename(attempt, result, done) == RemovalPhase::Finished(false),
        result is Collided && attempt < 127 ==> after_rename(attempt, result, done)
            == RemovalPhase::MoveAside((attempt + 1) as u32),
        result is Collided && attempt >= 127 ==> after_rename(attempt, result, done)
            == RemovalPhase::Finished(false),
{
}

}
