use bootty_app::extensions::command::OwnerIdentity;
use bootty_app::extensions::error::ExtensionError;
use bootty_app::extensions::file_access::{
    file_components, file_exists, file_read, file_stat, normalize_file_path, Opened,
};
use bootty_app::extensions::file_batch::{
    rollback, ApplyPhase, BatchEntry, BatchPhase, EntryContent, RollbackPlan,
};
use bootty_app::extensions::file_commit::{
    apply_file_transaction, file_conflict, FileAction, FileCommit, FileEvent, FileIdentity,
    FileSnapshot, FileVersion, Look,
};
use bootty_app::extensions::file_removal::{
    create_temporary_file, next_file_sidecar, preserve_unknown_file, remove_file_if_matches,
    snapshot_file, Allocation, CreateResult, FileStat, Preservation, ReadFailure, RemovalEvent,
    RemovalPhase, RenameResult, NAME_ATTEMPTS,
};
use bootty_app::extensions::files::{
    encode_digests, file_transaction_digest, file_transactions_digest, spell, TargetLook,
};
use bootty_app::extensions::json::{Json, JsonNumber};
use bootty_app::extensions::operations::{OperationEvent, OperationPhase};
use bootty_app::extensions::runtime::{
    ExtensionPackageManifest, ExtensionRuntime, FileTransaction, FileTransactionOperation,
    FileTransactionPreview, EXTENSION_FILE_BYTES,
};
use std::collections::BTreeMap;

const ID: &str = "sample.extension";

fn identity(inode: u64) -> FileIdentity {
    FileIdentity { device: 1, inode }
}

fn version(size: u64, stamp: i64) -> FileVersion {
    FileVersion {
        size,
        modified_seconds: stamp,
        modified_nanos: 0,
        changed_seconds: stamp,
        changed_nanos: 0,
    }
}

fn snapshot(inode: u64, stamp: i64, bytes: &[u8]) -> FileSnapshot {
    FileSnapshot {
        existed: true,
        identity: Some(identity(inode)),
        version: Some(version(bytes.len() as u64, stamp)),
        bytes: bytes.to_vec(),
    }
}

fn absent() -> FileSnapshot {
    FileSnapshot { existed: false, identity: None, version: None, bytes: Vec::new() }
}

fn copy(of: &FileSnapshot) -> FileSnapshot {
    FileSnapshot {
        existed: of.existed,
        identity: of.identity,
        version: of.version,
        bytes: of.bytes.clone(),
    }
}

/// A directory with one file and one temporary file.
struct Directory {
    target: Option<FileSnapshot>,
    temporary: Option<FileSnapshot>,
    contents: Vec<u8>,
    expected: FileSnapshot,
    /// What another writer puts in place before this many actions were done.
    intruder: Option<(usize, FileSnapshot)>,
    actions: usize,
}

fn look(at: &Option<FileSnapshot>) -> FileEvent {
    FileEvent::Looked(match at {
        Some(found) => Look::Found(copy(found)),
        None => Look::Missing("no such file".to_owned()),
    })
}

impl Directory {
    fn perform(&mut self, action: FileAction) -> FileEvent {
        self.actions += 1;
        if let Some((at, found)) = &self.intruder {
            if *at == self.actions {
                self.target = Some(copy(found));
            }
        }
        match action {
            FileAction::OpenParent => {
                FileEvent::Parent { identity: identity(100), same_name: true }
            }
            FileAction::LookAtTarget => look(&self.target),
            FileAction::LookAtTemporary => look(&self.temporary),
            FileAction::CreateTemporary => {
                self.temporary = Some(snapshot(7, 1, b""));
                FileEvent::Done
            }
            FileAction::WriteTemporary => {
                let written = snapshot(7, 9, &self.contents);
                let event = FileEvent::Written {
                    identity: written.identity.unwrap(),
                    version: written.version.unwrap(),
                };
                self.temporary = Some(written);
                event
            }
            FileAction::Exchange => {
                std::mem::swap(&mut self.target, &mut self.temporary);
                FileEvent::Done
            }
            FileAction::Publish => {
                if self.target.is_some() {
                    FileEvent::Collided
                } else {
                    self.target = self.temporary.take();
                    FileEvent::Done
                }
            }
            FileAction::RemoveExpected | FileAction::RemoveWritten => {
                let wanted = match action {
                    FileAction::RemoveExpected => self.expected.bytes.clone(),
                    _ => self.contents.clone(),
                };
                let same = self.temporary.as_ref().is_some_and(|found| found.bytes == wanted);
                if same {
                    self.temporary = None;
                }
                FileEvent::Removed(same)
            }
            FileAction::Preserve => {
                self.temporary = None;
                FileEvent::Preserved(true)
            }
            FileAction::SyncParent => FileEvent::Done,
            FileAction::Nothing => FileEvent::Done,
        }
    }

    fn run(&mut self, commit: FileCommit) -> Result<FileSnapshot, ExtensionError> {
        let mut commit = commit;
        for _ in 0..200 {
            if commit.action() == FileAction::Nothing {
                return commit.finish().expect("the commit has ended");
            }
            let event = self.perform(commit.action());
            commit = commit.step(event);
        }
        panic!("the commit never ends");
    }
}

fn directory(target: Option<FileSnapshot>, contents: &[u8]) -> Directory {
    let expected = match &target {
        Some(found) => copy(found),
        None => absent(),
    };
    Directory {
        target,
        temporary: None,
        contents: contents.to_vec(),
        expected,
        intruder: None,
        actions: 0,
    }
}

#[test]
fn files_are_replaced_by_their_new_content() {
    let mut place = directory(Some(snapshot(5, 1, b"old")), b"new");
    let commit = apply_file_transaction(Some(identity(100)), copy(&place.expected), b"new".to_vec());
    let after = place.run(commit).unwrap();
    assert_eq!(after.bytes, b"new");
    assert_eq!(place.target.unwrap().bytes, b"new");
    assert!(place.temporary.is_none());
}

#[test]
fn file_transaction_absent_target_uses_no_replace_commit() {
    let mut place = directory(None, b"new");
    let commit = apply_file_transaction(Some(identity(100)), absent(), b"new".to_vec());
    assert_eq!(place.run(commit).unwrap().bytes, b"new");

    let mut place = directory(None, b"new");
    place.intruder = Some((5, snapshot(8, 2, b"theirs")));
    let commit = apply_file_transaction(Some(identity(100)), absent(), b"new".to_vec());
    let error = place.run(commit).unwrap_err();
    assert_eq!(error.code, "file_conflict");
    assert_eq!(place.target.unwrap().bytes, b"theirs");
}

#[test]
fn file_transaction_rejects_concurrent_content_change() {
    let mut place = directory(Some(snapshot(5, 2, b"theirs")), b"new");
    let commit =
        apply_file_transaction(Some(identity(100)), snapshot(5, 1, b"old"), b"new".to_vec());
    let error = place.run(commit).unwrap_err();
    assert_eq!(error.code, "file_conflict");
    assert_eq!(place.target.unwrap().bytes, b"theirs");
}

#[test]
fn file_transaction_rejects_parent_directory_identity_swap() {
    let mut place = directory(Some(snapshot(5, 1, b"old")), b"new");
    let commit = apply_file_transaction(Some(identity(99)), copy(&place.expected), b"new".to_vec());
    let error = place.run(commit).unwrap_err();
    assert_eq!(error.code, "file_conflict");
    assert_eq!(place.target.unwrap().bytes, b"old");
}

#[test]
fn no_writer_is_overwritten_whenever_it_comes() {
    for at in 1..30 {
        let mut place = directory(Some(snapshot(5, 1, b"old")), b"new");
        place.intruder = Some((at, snapshot(8, 2, b"theirs")));
        let commit =
            apply_file_transaction(Some(identity(100)), snapshot(5, 1, b"old"), b"new".to_vec());
        let came = place.run(commit);
        let end = place.target.unwrap().bytes;
        assert!(end == b"theirs" || (came.is_ok() && end == b"new"));
    }
}

#[test]
fn removals_take_only_the_file_they_were_meant_for() {
    let removal = remove_file_if_matches(identity(5), version(3, 1), b"old".to_vec());
    let removal = removal.step(RemovalEvent::Renamed(RenameResult::Collided));
    assert_eq!(removal.phase, RemovalPhase::MoveAside(1));
    let removal = removal.step(RemovalEvent::Renamed(RenameResult::Done));
    let removal = removal.step(RemovalEvent::Looked(Look::Found(snapshot(5, 1, b"old"))));
    assert_eq!(removal.phase, RemovalPhase::Unlink);
    let removal = removal.step(RemovalEvent::Unlinked(true));
    assert_eq!(removal.phase, RemovalPhase::Finished(true));

    let removal = remove_file_if_matches(identity(5), version(3, 1), b"old".to_vec());
    let removal = removal.step(RemovalEvent::Renamed(RenameResult::Done));
    let removal = removal.step(RemovalEvent::Looked(Look::Found(snapshot(6, 1, b"old"))));
    assert_eq!(removal.phase, RemovalPhase::PutBack);
    let removal = removal.step(RemovalEvent::Renamed(RenameResult::Done));
    assert_eq!(removal.phase, RemovalPhase::Finished(false));
}

#[test]
fn names_are_tried_a_limited_number_of_times() {
    let mut state = Preservation::Attempt(0);
    let mut tries: u32 = 0;
    while let Preservation::Attempt(_) = state {
        state = preserve_unknown_file(state, RenameResult::Collided);
        tries += 1;
    }
    assert_eq!(tries, NAME_ATTEMPTS);
    assert_eq!(state, Preservation::Finished(false));
    assert!(matches!(create_temporary_file(0, CreateResult::Done), Allocation::Created));
    assert!(matches!(
        create_temporary_file(0, CreateResult::Collided),
        Allocation::Attempt(1)
    ));
    let one = next_file_sidecar("sidecar", 1, 2, 3);
    let two = next_file_sidecar("sidecar", 1, 2, 4);
    assert_ne!(one, two);
}

#[test]
fn files_that_change_while_they_are_read_are_refused() {
    let before = FileStat { is_file: true, identity: identity(5), version: version(3, 1) };
    let after = FileStat { is_file: true, identity: identity(5), version: version(3, 2) };
    let failure = snapshot_file(&before, b"old".to_vec(), &after).unwrap_err();
    assert!(matches!(failure, ReadFailure::Changed));
    let same = snapshot_file(&before, b"old".to_vec(), &before).unwrap();
    assert_eq!(same.bytes, b"old");
}

#[test]
fn file_capability_access_reads_updates_and_creates_in_root() {
    let stat = || FileStat { is_file: true, identity: identity(5), version: version(3, 1) };
    let read = file_read(Ok(()), Opened::Done, Ok((stat(), b"old".to_vec())));
    assert_eq!(read.unwrap(), b"old");
    let large = vec![0u8; EXTENSION_FILE_BYTES + 1];
    let error = file_read(Ok(()), Opened::Done, Ok((stat(), large))).unwrap_err();
    assert_eq!(error.code, "file_too_large");
    let error = file_read(Ok(()), Opened::Missing("gone".to_owned()), Err(String::new()));
    assert_eq!(error.unwrap_err().code, "file_read_failed");
    assert!(file_exists(Ok(()), Opened::Done).unwrap());
    assert!(!file_exists(Ok(()), Opened::Missing("gone".to_owned())).unwrap());
    let error = file_exists(Err("no directory".to_owned()), Opened::Done).unwrap_err();
    assert_eq!(error.code, "file_stat_failed");
    assert_eq!(file_stat(Ok(()), Opened::Done, Ok(stat())).unwrap().identity.inode, 5);
}

#[test]
fn file_access_rejects_parent_traversal_and_symlink_targets() {
    assert_eq!(
        normalize_file_path("/root/../etc").unwrap_err(),
        "parent traversal is not allowed"
    );
    assert_eq!(
        normalize_file_path("relative").unwrap_err(),
        "extension file paths must be absolute"
    );
    assert_eq!(normalize_file_path("/a//b/./c").unwrap(), vec!["a", "b", "c"]);
    let (directories, name) =
        file_components(vec!["a".to_owned(), "b".to_owned()]).unwrap();
    assert_eq!((directories, name.as_str()), (vec!["a".to_owned()], "b"));
    assert_eq!(
        file_components(Vec::new()).unwrap_err(),
        "extension file path has no file name"
    );
    assert_eq!(
        file_components(vec!["..".to_owned()]).unwrap_err(),
        "extension file path contains a non-normal component"
    );
}

fn running() -> ExtensionRuntime {
    let owner = OwnerIdentity { pid: 1, generation: 1 };
    let mut runtime = ExtensionRuntime::new(1, owner, 256, 65536);
    runtime
        .install(
            ExtensionPackageManifest {
                id: ID.to_owned(),
                name: ID.to_owned(),
                version: "1".to_owned(),
                entrypoint: None,
                storage_namespace: None,
                default_enabled: false,
            },
            &[],
        )
        .unwrap();
    let mut operation = runtime.enable(ID);
    while operation.phase != OperationPhase::Finished {
        operation = runtime.advance(operation, OperationEvent { result: Ok(()) });
    }
    runtime.set_file_roots(vec!["/root".to_owned()]);
    runtime
}

fn writing(runtime: &mut ExtensionRuntime, name: &str, bytes: &[u8]) -> FileTransaction {
    let path = format!("/root/{name}");
    runtime
        .file_transaction(
            ID,
            1,
            &path,
            bytes.to_vec(),
            0,
            name,
            identity(100),
            TargetLook::Found(snapshot(5, 1, b"old")),
        )
        .unwrap()
}

#[test]
fn file_transactions_require_confirmation_for_destructive_changes() {
    let mut runtime = running();
    let transaction = writing(&mut runtime, "state.json", b"new");
    assert!(transaction.preview().destructive);
    assert_eq!(transaction.preview().after_bytes, 3);
    let digest = file_transactions_digest(std::slice::from_ref(&transaction));
    assert_eq!(digest.len(), 16);
    let again = writing(&mut runtime, "state.json", b"new");
    assert_ne!(again.confirmation_id, transaction.confirmation_id);
    let checked = FileTransaction {
        extension: again.extension.clone(),
        relative: again.relative.clone(),
        snapshot: copy(&transaction.snapshot),
        contents: transaction.contents.clone(),
        preview: transaction.preview.copy(),
        ..again
    };
    let checked = FileTransaction { confirmation_id: transaction.confirmation_id, ..checked };
    let confirmation = runtime.confirm_file_transaction(transaction).unwrap();
    assert_eq!(confirmation.digest, digest);
    let mut invalid = confirmation.clone();
    invalid.token.clear();
    assert!(checked.apply(&runtime, &invalid).is_err());
    invalid.token = confirmation.token.clone();
    invalid.preview.after_bytes += 1;
    let refused = checked.apply(&runtime, &invalid).unwrap_err();
    assert_eq!(refused.code, "invalid_confirmation");
    let mut apply = checked.apply(&runtime, &confirmation).unwrap();
    assert_eq!(apply.phase, ApplyPhase::Validate);
    apply = apply.advance(checked.validate_current(Ok(Look::Found(copy(&checked.snapshot)))));
    assert_eq!(apply.phase, ApplyPhase::Consume);
    let consumed = runtime.consume_confirmation(&confirmation.token);
    apply = apply.advance(consumed.map(|list| assert_eq!(list.len(), 1)));
    assert_eq!(apply.phase, ApplyPhase::Commit);
    let preview = apply.advance(Ok(())).finish().unwrap().unwrap();
    assert_eq!(preview.after_bytes, 3);
    let error = checked.apply(&runtime, &confirmation).unwrap_err();
    assert_eq!(error.code, "invalid_confirmation");
}

#[test]
fn digests_tell_actions_apart() {
    let mut runtime = running();
    let one = writing(&mut runtime, "state.json", b"new");
    let two = writing(&mut runtime, "state.json", b"other");
    assert_ne!(file_transaction_digest(&one), file_transaction_digest(&two));
    assert_eq!(file_transaction_digest(&one), file_transaction_digest(&one));
    assert_eq!(file_transaction_digest(&one).len(), 16);
    assert_ne!(file_transaction_digest(&one), file_transactions_digest(std::slice::from_ref(&one)));
}

fn preview_json(transaction: &FileTransaction) -> Json {
    let preview = transaction.preview();
    let natural = |n: usize| Json::Number(JsonNumber::Natural(n as u64));
    Json::Object(vec![
        ("after_bytes".to_owned(), natural(preview.after_bytes)),
        ("before_bytes".to_owned(), natural(preview.before_bytes)),
        ("changed".to_owned(), Json::Bool(preview.changed)),
        ("destructive".to_owned(), Json::Bool(preview.destructive)),
        ("existed".to_owned(), Json::Bool(preview.existed)),
        ("path".to_owned(), Json::Text(preview.path.clone())),
    ])
}

#[test]
fn confirmations_are_good_for_exactly_their_actions() {
    let mut runtime = running();
    let transaction = writing(&mut runtime, "state.json", b"new");
    let digest = file_transactions_digest(std::slice::from_ref(&transaction));
    let shown = Json::Object(vec![
        ("digest".to_owned(), Json::Text(digest.clone())),
        ("preview".to_owned(), preview_json(&transaction)),
        ("previews".to_owned(), Json::Array(vec![preview_json(&transaction)])),
        (
            "transaction_id".to_owned(),
            Json::Number(JsonNumber::Natural(transaction.confirmation_id)),
        ),
    ]);
    let confirmation = runtime.confirm_file_transactions(vec![transaction]).unwrap();
    runtime.validate_file_confirmation(ID, 1, &shown, &confirmation.token).unwrap();
    let none = Json::Array(Vec::new());
    assert!(runtime.validate_file_confirmation(ID, 1, &none, &confirmation.token).is_err());
    assert!(runtime.validate_file_confirmation(ID, 1, &shown, "other").is_err());
    assert!(runtime.confirm_file_transactions(Vec::new()).is_err());
}

/// Files by their paths, and another writer who comes in between.
#[derive(Default)]
struct Disk {
    files: BTreeMap<String, FileSnapshot>,
    stamp: i64,
    inode: u64,
    /// What another writer puts in place before the next exchange.
    before_exchange: Vec<(String, Vec<u8>)>,
    /// What another writer puts in place after the next exchange.
    after_exchange: Vec<(String, Vec<u8>)>,
}

fn path_of(name: &str) -> String {
    format!("/root/{name}")
}

impl Disk {
    fn put(&mut self, path: &str, bytes: &[u8]) {
        self.stamp += 1;
        self.inode += 1;
        let inode = match self.files.get(path).and_then(|file| file.identity) {
            Some(known) => known.inode,
            None => 1000 + self.inode,
        };
        self.files.insert(path.to_owned(), snapshot(inode, self.stamp, bytes));
    }

    fn read(&self, path: &str) -> Option<&[u8]> {
        self.files.get(path).map(|file| file.bytes.as_slice())
    }

    fn look(&self, path: &str) -> Look {
        match self.files.get(path) {
            Some(file) => Look::Found(copy(file)),
            None => Look::Missing("no such file".to_owned()),
        }
    }

    fn target(&self, path: &str) -> TargetLook {
        match self.files.get(path) {
            Some(file) => TargetLook::Found(copy(file)),
            None => TargetLook::Missing,
        }
    }

    fn write(
        &mut self,
        path: &str,
        parent: Option<FileIdentity>,
        expected: &FileSnapshot,
        contents: &[u8],
    ) -> Result<FileSnapshot, ExtensionError> {
        let mut place = directory(None, contents);
        place.expected = copy(expected);
        let mut commit = apply_file_transaction(parent, copy(expected), contents.to_vec());
        while commit.action() != FileAction::Nothing {
            let exchanges = commit.action() == FileAction::Exchange;
            if exchanges {
                for (path, bytes) in std::mem::take(&mut self.before_exchange) {
                    self.put(&path, &bytes);
                }
            }
            place.target = self.files.remove(path);
            let event = place.perform(commit.action());
            if let Some(file) = place.target.take() {
                self.files.insert(path.to_owned(), file);
            }
            if exchanges {
                for (path, bytes) in std::mem::take(&mut self.after_exchange) {
                    self.put(&path, &bytes);
                }
            }
            commit = commit.step(event);
        }
        commit.finish().expect("the commit has ended")
    }

    fn remove(&mut self, path: &str, wanted: (FileIdentity, FileVersion), bytes: &[u8]) -> bool {
        let mut removal = remove_file_if_matches(wanted.0, wanted.1, bytes.to_vec());
        let mut aside: Option<FileSnapshot> = None;
        loop {
            let event = match removal.phase {
                RemovalPhase::MoveAside(_) => {
                    aside = self.files.remove(path);
                    RemovalEvent::Renamed(match aside {
                        Some(_) => RenameResult::Done,
                        None => RenameResult::Failed,
                    })
                }
                RemovalPhase::Look => RemovalEvent::Looked(match &aside {
                    Some(file) => Look::Found(copy(file)),
                    None => Look::Missing("no such file".to_owned()),
                }),
                RemovalPhase::Unlink => {
                    aside = None;
                    RemovalEvent::Unlinked(true)
                }
                RemovalPhase::PutBack => {
                    if let Some(file) = aside.take() {
                        self.files.insert(path.to_owned(), file);
                    }
                    RemovalEvent::Renamed(RenameResult::Done)
                }
                RemovalPhase::Finished(removed) => return removed,
            };
            removal = removal.step(event);
        }
    }

    fn apply_one(&mut self, action: &FileTransaction) -> Result<FileSnapshot, ExtensionError> {
        let path = action.preview.path.as_str();
        match action.operation {
            FileTransactionOperation::Write => {
                self.write(path, action.parent_identity, &action.snapshot, &action.contents)
            }
            FileTransactionOperation::Remove => {
                if self.remove(path, action.removal_target()?, &action.snapshot.bytes) {
                    Ok(absent())
                } else {
                    Err(file_conflict("file changed before removal"))
                }
            }
        }
    }

    fn undo_one(
        &mut self,
        action: &FileTransaction,
        post: &FileSnapshot,
    ) -> Result<(), ExtensionError> {
        let path = action.preview.path.as_str();
        match rollback(action, identity(100), self.look(path), post)? {
            RollbackPlan::Restore => self
                .write(path, action.parent_identity, post, &action.snapshot.bytes)
                .map(|_| ()),
            RollbackPlan::Remove { identity, version } => {
                assert!(self.remove(path, (identity, version), &post.bytes));
                Ok(())
            }
        }
    }

    fn apply(
        &mut self,
        runtime: &mut ExtensionRuntime,
        actions: &Option<Vec<BatchEntry>>,
        token: &str,
    ) -> Result<Vec<FileTransactionPreview>, ExtensionError> {
        let mut batch = runtime.apply_file_confirmation(ID, 1, actions, token)?;
        let mut transactions = Vec::new();
        let mut posts = Vec::new();
        while batch.phase != BatchPhase::Finished {
            let result = match batch.phase {
                BatchPhase::Validate(index) => {
                    let record = runtime.file_confirmations.get(&token.to_owned()).unwrap();
                    let transaction = &record.transactions[index];
                    transaction.validate_current(Ok(self.look(&transaction.preview.path)))
                }
                BatchPhase::Consume => {
                    runtime.consume_confirmation(token).map(|list| transactions = list)
                }
                BatchPhase::Apply(index) => {
                    self.apply_one(&transactions[index]).map(|post| posts.push(post))
                }
                BatchPhase::RollBack(index) => self.undo_one(&transactions[index], &posts[index]),
                BatchPhase::Finished => Ok(()),
            };
            batch = batch.advance(result);
        }
        batch.finish().expect("the batch has ended")
    }
}

fn prepared_write(
    runtime: &mut ExtensionRuntime,
    disk: &Disk,
    name: &str,
    bytes: &[u8],
) -> FileTransaction {
    let path = path_of(name);
    let look = disk.target(&path);
    runtime
        .file_transaction(ID, 1, &path, bytes.to_vec(), 0, name, identity(100), look)
        .unwrap()
}

fn prepared_removal(runtime: &mut ExtensionRuntime, disk: &Disk, name: &str) -> FileTransaction {
    let path = path_of(name);
    let look = disk.target(&path);
    runtime.file_removal_transaction(ID, 1, &path, 0, name, identity(100), look).unwrap()
}

fn write_entry(name: &str, text: &str) -> BatchEntry {
    BatchEntry::Object {
        path: Some(path_of(name)),
        operation: Some("write".to_owned()),
        content: EntryContent::Text(text.to_owned()),
    }
}

fn remove_entry(name: &str) -> BatchEntry {
    BatchEntry::Object {
        path: Some(path_of(name)),
        operation: Some("remove".to_owned()),
        content: EntryContent::Missing,
    }
}

fn two_files() -> Disk {
    let mut disk = Disk::default();
    disk.put("/root/write.txt", b"before-write");
    disk.put("/root/remove.txt", b"before-remove");
    disk
}

#[test]
fn file_transaction_batch_applies_mixed_write_and_remove_once() {
    let mut runtime = running();
    let mut disk = two_files();
    let write = prepared_write(&mut runtime, &disk, "write.txt", b"after-write");
    let remove = prepared_removal(&mut runtime, &disk, "remove.txt");
    let confirmation = runtime.confirm_file_transactions(vec![write, remove]).unwrap();
    assert_eq!(confirmation.previews.len(), 2);
    let actions =
        Some(vec![write_entry("write.txt", "after-write"), remove_entry("remove.txt")]);
    let previews = disk.apply(&mut runtime, &actions, &confirmation.token).unwrap();
    assert_eq!(previews.len(), 2);
    assert_eq!(previews[0].path, "/root/write.txt");
    assert_eq!(previews[0].after_bytes, 11);
    assert_eq!(disk.read("/root/write.txt"), Some(&b"after-write"[..]));
    assert_eq!(disk.read("/root/remove.txt"), None);
    let again = disk.apply(&mut runtime, &actions, &confirmation.token).unwrap_err();
    assert_eq!(again.code, "invalid_confirmation");
    assert_eq!(disk.read("/root/write.txt"), Some(&b"after-write"[..]));
}

#[test]
fn file_transaction_batch_rolls_back_prior_actions_after_mid_batch_failure() {
    let mut runtime = running();
    let mut disk = two_files();
    let write = prepared_write(&mut runtime, &disk, "write.txt", b"after-write");
    let remove = prepared_removal(&mut runtime, &disk, "remove.txt");
    let confirmation = runtime.confirm_file_transactions(vec![write, remove]).unwrap();
    disk.after_exchange = vec![("/root/remove.txt".to_owned(), b"concurrent".to_vec())];
    let actions =
        Some(vec![write_entry("write.txt", "after-write"), remove_entry("remove.txt")]);
    let error = disk.apply(&mut runtime, &actions, &confirmation.token).unwrap_err();
    assert_eq!(error.code, "file_batch_apply_failed");
    let details = error.details.expect("file batch details");
    assert_eq!(details.original_code, "file_conflict");
    assert!(details.rolled_back);
    assert!(details.rollback_errors.is_empty());
    assert_eq!(disk.read("/root/write.txt"), Some(&b"before-write"[..]));
    assert_eq!(disk.read("/root/remove.txt"), Some(&b"concurrent"[..]));
}

#[test]
fn file_transaction_batch_preserves_concurrent_edit_during_rollback() {
    let mut runtime = running();
    let mut disk = two_files();
    let remove = prepared_removal(&mut runtime, &disk, "remove.txt");
    let write = prepared_write(&mut runtime, &disk, "write.txt", b"after-write");
    let confirmation = runtime.confirm_file_transactions(vec![remove, write]).unwrap();
    disk.before_exchange = vec![
        ("/root/remove.txt".to_owned(), b"concurrent-remove".to_vec()),
        ("/root/write.txt".to_owned(), b"concurrent-write".to_vec()),
    ];
    let actions =
        Some(vec![remove_entry("remove.txt"), write_entry("write.txt", "after-write")]);
    let error = disk.apply(&mut runtime, &actions, &confirmation.token).unwrap_err();
    assert_eq!(error.code, "file_batch_apply_failed");
    let details = error.details.expect("file batch details");
    assert_eq!(details.original_code, "file_conflict");
    assert!(!details.rolled_back);
    assert_eq!(details.rollback_errors.len(), 1);
    assert_eq!(details.rollback_errors[0].path, "/root/remove.txt");
    assert!(details.rollback_errors[0].conflict);
    assert_eq!(disk.read("/root/remove.txt"), Some(&b"concurrent-remove"[..]));
    assert_eq!(disk.read("/root/write.txt"), Some(&b"concurrent-write"[..]));
}

#[test]
fn actions_have_to_be_the_confirmed_ones() {
    let mut runtime = running();
    let disk = two_files();
    let contents = br#"{"a":[1,2.5,0.30000000000000004],"b":null}"#;
    let write = prepared_write(&mut runtime, &disk, "write.txt", contents);
    let token = runtime.confirm_file_transaction(write).unwrap().token;
    let check = |entry: BatchEntry| {
        runtime
            .apply_file_confirmation(ID, 1, &Some(vec![entry]), &token)
            .map(|batch| batch.previews.len())
            .map_err(|error| (error.code, error.message))
    };
    let with = |path: Option<&str>, operation: Option<&str>, content: EntryContent| {
        BatchEntry::Object {
            path: path.map(str::to_owned),
            operation: operation.map(str::to_owned),
            content,
        }
    };
    let path = Some("/root/write.txt");
    let value = |text: &str| EntryContent::Value(text.to_owned());
    let spaced = r#" { "b": null, "a": [1, 2.50, 0.30000000000000004] } "#;
    assert_eq!(check(with(path, None, value(spaced))), Ok(1));
    let text = EntryContent::Text(String::from_utf8(contents.to_vec()).unwrap());
    assert_eq!(check(with(path, Some("write"), text)), Ok(1));
    let refused = |entry: BatchEntry| check(entry).unwrap_err();
    assert_eq!(refused(with(path, None, value("{}"))).0, "invalid_confirmation");
    assert_eq!(refused(with(path, None, value("{"))).0, "invalid_file_actions");
    assert_eq!(
        refused(with(path, None, EntryContent::Missing)).1,
        "write action content is required"
    );
    assert_eq!(
        refused(with(path, Some("remove"), EntryContent::Missing)).1,
        "file action operation does not match the exact transaction"
    );
    assert_eq!(
        refused(with(Some("/root/other"), None, EntryContent::Missing)).1,
        "file action path does not match the exact transaction"
    );
    assert_eq!(
        refused(with(None, None, EntryContent::Missing)).1,
        "file action path is required"
    );
    assert_eq!(refused(BatchEntry::NotObject).1, "file action must be an object");
    let none = runtime.apply_file_confirmation(ID, 1, &None, &token).unwrap_err();
    assert_eq!(none.message, "file actions must be an array");
    let few = runtime.apply_file_confirmation(ID, 1, &Some(Vec::new()), &token).unwrap_err();
    assert_eq!(few.message, "file confirmation does not match the exact file action batch");
    let unknown = runtime.apply_file_confirmation(ID, 1, &Some(Vec::new()), "x").unwrap_err();
    assert_eq!(unknown.message, "file confirmation token is unknown or already consumed");
}

#[test]
fn digests_are_put_in_a_row() {
    assert_eq!(spell(&[0x00, 0x9a, 0xff]), "009aff");
    let code = encode_digests(&["ab".to_owned(), "c".to_owned()]);
    assert_eq!(code, [2, 0, 0, 0, 0, 0, 0, 0, b'a', b'b', 1, 0, 0, 0, 0, 0, 0, 0, b'c']);
    let mut runtime = running();
    let digest = "0123456789abcdef";
    let first = writing(&mut runtime, "state.json", b"new");
    let first = runtime.confirm_with_digest(vec![first], digest).unwrap();
    let second = writing(&mut runtime, "state.json", b"new");
    let second = runtime.confirm_with_digest(vec![second], digest).unwrap();
    assert!(first.token.ends_with("-0123456789abcdef"));
    assert_ne!(first.token, second.token);
}

#[test]
fn actions_on_changed_files_end_before_their_token_is_used() {
    let mut runtime = running();
    let transaction = writing(&mut runtime, "state.json", b"new");
    let digest = file_transactions_digest(std::slice::from_ref(&transaction));
    let kept = writing(&mut runtime, "state.json", b"new");
    let transaction = FileTransaction { confirmation_id: kept.confirmation_id, ..transaction };
    let confirmation = runtime.confirm_with_digest(vec![kept], &digest).unwrap();
    let apply = transaction.apply_with_digest(&runtime, &confirmation, &digest).unwrap();
    let theirs = Look::Found(snapshot(5, 2, b"theirs"));
    let apply = apply.advance(transaction.validate_current(Ok(theirs)));
    assert_eq!(apply.phase, ApplyPhase::Finished);
    assert_eq!(apply.finish().unwrap().unwrap_err().code, "file_conflict");
    assert!(transaction.apply_with_digest(&runtime, &confirmation, &digest).is_ok());
    assert!(transaction.apply_with_digest(&runtime, &confirmation, "other").is_err());
}

#[test]
fn digests_cover_every_part_of_an_action() {
    let mut runtime = running();
    let base = writing(&mut runtime, "state.json", b"new");
    let digest = file_transaction_digest(&base);
    let number = base.confirmation_id;
    let change = |alter: &dyn Fn(&mut FileTransaction)| {
        let mut runtime = running();
        let mut other = writing(&mut runtime, "state.json", b"new");
        other.confirmation_id = number;
        assert_eq!(file_transaction_digest(&other), digest);
        alter(&mut other);
        file_transaction_digest(&other)
    };
    let changed = [
        change(&|t| t.confirmation_id += 1),
        change(&|t| t.generation += 1),
        change(&|t| t.preview.path.push('x')),
        change(&|t| t.preview.destructive = !t.preview.destructive),
        change(&|t| t.contents.push(b'x')),
        change(&|t| t.operation = FileTransactionOperation::Remove),
        change(&|t| t.snapshot.bytes.push(b'x')),
        change(&|t| t.snapshot.identity = Some(identity(6))),
        change(&|t| t.snapshot.version = Some(version(3, -2))),
        change(&|t| t.parent_identity = Some(identity(101))),
    ];
    for (at, one) in changed.iter().enumerate() {
        assert_ne!(one, &digest);
        assert!(!changed[at + 1..].contains(one));
    }
}
