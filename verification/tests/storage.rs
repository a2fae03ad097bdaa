use bootty_app::extensions::capabilities::ExtensionRuntimeCapabilities;
use bootty_app::extensions::command::OwnerIdentity;
use bootty_app::extensions::error::ExtensionError;
use bootty_app::extensions::ids::{
    extension_scope, namespaced_metadata_namespace, ExtensionGeneration, ExtensionPackageId,
};
use bootty_app::extensions::json::Json;
use bootty_app::extensions::logs::{EXTENSION_LOG_BYTES, EXTENSION_LOG_LIMIT};
use bootty_app::extensions::metadata::strip_namespace;
use bootty_app::extensions::operations::{OperationEvent, OperationPhase};
use bootty_app::extensions::output::{ProcessOutput, EXTENSION_PROCESS_LINES};
use bootty_app::extensions::runtime::{
    ExtensionPackageManifest, ExtensionRuntime, HostObservation, EXTENSION_FILE_BYTES,
};
use bootty_app::extensions::storage::{
    merge_storage_keys, stored_value, StorageLookup, StorageRead,
};
use bootty_app::extensions::termination::{awaits_readers, TerminationStep};
use bootty_app::extensions::storage_files::{
    check_storage_directory, storage_directory, storage_path, temporary_file_name, AtomicWrite,
    WriteStep,
};

const ID: &str = "sample.extension";

fn owner() -> OwnerIdentity {
    OwnerIdentity { pid: 1, generation: 1 }
}

fn running() -> ExtensionRuntime {
    let mut runtime = ExtensionRuntime::new(1, owner(), 256, 65536);
    runtime
        .install(
            ExtensionPackageManifest {
                id: ID.to_owned(),
                name: ID.to_owned(),
                version: "1".to_owned(),
                entrypoint: None,
                storage_namespace: None,
                default_enabled: false,
            },
            &[],
        )
        .unwrap();
    let mut operation = runtime.enable(ID);
    while operation.phase != OperationPhase::Finished {
        operation = runtime.advance(operation, OperationEvent { result: Ok(()) });
    }
    runtime
}

fn capabilities() -> ExtensionRuntimeCapabilities {
    ExtensionRuntimeCapabilities {
        generation: ExtensionGeneration { extension_id: ID.to_owned(), generation: 1 },
        owner: owner(),
    }
}

#[test]
fn package_ids_are_checked() {
    ExtensionPackageId::new("sample.extension-1").unwrap();
    for wrong in ["", "a..b", ".a", "a b", "a:b"] {
        assert_eq!(ExtensionPackageId::new(wrong).unwrap_err().code, "invalid_extension_id");
    }
    assert!(ExtensionPackageId::new(&"x".repeat(129)).is_err());
    assert_ne!(extension_scope("a", 11), extension_scope("a.1", 1));
    assert_eq!(extension_scope("a", 11), "extension:a:11");
}

#[test]
fn stored_values_are_found_until_they_are_deleted() {
    let mut runtime = running();
    let held = capabilities();
    assert!(matches!(held.storage_get(&runtime, "key").unwrap(), StorageLookup::Nothing));
    assert!(held.storage_put(&runtime, "key", "1").unwrap().is_none());
    runtime.commit_storage_put(ID, 1, owner(), "key", "1", Ok(())).unwrap();
    assert!(matches!(
        held.storage_get(&runtime, "key").unwrap(),
        StorageLookup::Value(v) if v == "1"
    ));
    let (keys, _) = held.storage_list(&runtime).unwrap();
    let names = vec!["other.json".to_owned(), "note.txt".to_owned(), ".json".to_owned()];
    assert_eq!(merge_storage_keys(keys, &names), vec!["key", "other"]);
    runtime.commit_storage_delete(ID, 1, owner(), "key", Ok(())).unwrap();
    assert!(matches!(held.storage_get(&runtime, "key").unwrap(), StorageLookup::Nothing));
}

#[test]
fn storage_failure_preserves_cached_and_durable_value_until_retry() {
    let mut runtime = running();
    runtime.commit_storage_put(ID, 1, owner(), "key", "1", Ok(())).unwrap();
    let failed = Err(ExtensionError::new("storage_unavailable", "disk full"));
    assert!(runtime.commit_storage_put(ID, 1, owner(), "key", "2", failed).is_err());
    assert!(matches!(
        runtime.storage_get(ID, 1, owner(), "key").unwrap(),
        StorageLookup::Value(v) if v == "1"
    ));
    runtime.commit_storage_put(ID, 1, owner(), "key", "2", Ok(())).unwrap();
    assert!(matches!(
        runtime.storage_get(ID, 1, owner(), "key").unwrap(),
        StorageLookup::Value(v) if v == "2"
    ));
}

#[test]
fn storage_namespace_rejects_traversal_and_symlink_components() {
    assert_eq!(
        storage_directory("/storage", ID, "state").unwrap(),
        "/storage/sample.extension/state"
    );
    assert_eq!(
        storage_directory("/storage", ID, "../state").unwrap_err().code,
        "invalid_storage_namespace"
    );
    assert!(storage_directory("/storage", "..", "state").is_err());
    check_storage_directory("/storage", "/storage/sample.extension/state", &[false, false])
        .unwrap();
    let error = check_storage_directory("/storage", "/elsewhere", &[]).unwrap_err();
    assert_eq!(error.message, "storage path escapes the extension storage root");
    let error = check_storage_directory("/storage", "/storage/a", &[false, true]).unwrap_err();
    assert_eq!(error.message, "symlink traversal is denied for extension storage");
    assert_eq!(storage_path("/storage/a", "key", false).unwrap(), "/storage/a/key.json");
    assert!(storage_path("/storage/a", "key", true).is_err());
    assert_eq!(storage_path("/s", "..", false).unwrap_err().code, "invalid_storage_key");
}

#[test]
fn stored_files_hold_json() {
    assert_eq!(stored_value(StorageRead::Missing).unwrap(), None);
    let read = StorageRead::Bytes(b" {\"a\" : [1, 2]} ".to_vec());
    assert_eq!(stored_value(read).unwrap().as_deref(), Some("{\"a\":[1,2]}"));
    assert!(stored_value(StorageRead::Bytes(b"{".to_vec())).is_err());
    assert!(stored_value(StorageRead::Failed("denied".to_owned())).is_err());
}

#[test]
fn files_are_replaced_in_one_step() {
    assert_eq!(temporary_file_name(Some("packages.json"), 7), ".packages.json.7.tmp");
    assert_eq!(temporary_file_name(None, 7), ".file.7.tmp");
    let mut write = AtomicWrite::atomic_write(true);
    let mut steps = Vec::new();
    while write.step != WriteStep::Done {
        steps.push(write.step);
        write.advance(Ok(()));
    }
    assert_eq!(
        steps,
        vec![
            WriteStep::MakeDirectory,
            WriteStep::Create,
            WriteStep::Write,
            WriteStep::Sync,
            WriteStep::Rename,
            WriteStep::SyncDirectory
        ]
    );
    write.finish().unwrap();
    let mut write = AtomicWrite::atomic_write(true);
    write.advance(Ok(()));
    write.advance(Ok(()));
    write.advance(Err("disk full".to_owned()));
    assert_eq!(write.step, WriteStep::Remove);
    write.advance(Ok(()));
    assert_eq!(write.finish().unwrap_err().message, "disk full");
    let none = AtomicWrite::atomic_write(false);
    assert_eq!(none.finish().unwrap_err().message, "target has no parent directory");
}

#[test]
fn metadata_is_found_by_its_publisher() {
    let mut runtime = running();
    let scope = extension_scope(ID, 1);
    let provenance = Json::Object(vec![("extension_id".to_owned(), Json::Text(ID.to_owned()))]);
    let place =
        runtime.publish_metadata(ID, 1, owner(), &scope, "state", &None, &provenance).unwrap();
    assert_eq!(strip_namespace(ID, &place.namespace), "state");
    runtime.commit_metadata(place, "state".to_owned(), "key".to_owned(), None);
    assert!(runtime.metadata_get(ID, 1, owner(), "state", "key", &None).unwrap().is_some());
    assert!(runtime.metadata_get(ID, 1, owner(), "state", "other", &None).unwrap().is_none());
    let stranger = OwnerIdentity { pid: 2, generation: 1 };
    assert!(runtime.metadata_get(ID, 1, stranger, "state", "key", &None).unwrap().is_none());
    let place = runtime.metadata_clear(ID, 1, owner(), "state", &None).unwrap();
    runtime.forget_metadata(place, "key", &None);
    assert!(runtime.metadata_get(ID, 1, owner(), "state", "key", &None).unwrap().is_none());
    assert_eq!(
        namespaced_metadata_namespace(ID, "a/b", 256).unwrap_err().message,
        "metadata namespace is invalid"
    );
}

#[test]
fn logs_are_bounded() {
    let mut runtime = running();
    for n in 0..(EXTENSION_LOG_LIMIT as u64 + 5) {
        runtime.log(ID, 1, owner(), "info", "line", n).unwrap();
    }
    let entries = runtime.logs(ID, 1, owner()).unwrap();
    assert_eq!(entries.len(), EXTENSION_LOG_LIMIT);
    assert_eq!(entries[0].timestamp_ms, 5);
    let error = runtime
        .log(ID, 1, owner(), "info", &"x".repeat(EXTENSION_LOG_BYTES + 1), 0)
        .unwrap_err();
    assert_eq!(error.code, "log_too_large");
}

#[test]
fn observations_are_replaced() {
    let mut runtime = running();
    let seen = |metadata: &str| HostObservation {
        topology: "[]".to_owned(),
        terminals: "null".to_owned(),
        metadata: metadata.to_owned(),
    };
    runtime.replace_observation(ID, 1, owner(), seen("{ \"a\": 1 }")).unwrap();
    assert_eq!(runtime.observe(ID, 1, owner()).unwrap().metadata, "{\"a\":1}");
    let error = runtime.replace_observation(ID, 1, owner(), seen("{")).unwrap_err();
    assert_eq!(error.code, "invalid_observation");
    let frame = "{\"topology\":[],\"terminals\":null,\"metadata\":\"\"}".len();
    let fits = format!("\"{}\"", "x".repeat(EXTENSION_FILE_BYTES - frame));
    runtime.replace_observation(ID, 1, owner(), seen(&fits)).unwrap();
    let large = format!("\"{}\"", "x".repeat(EXTENSION_FILE_BYTES - frame + 1));
    let error = runtime.replace_observation(ID, 1, owner(), seen(&large)).unwrap_err();
    assert_eq!(error.code, "observation_too_large");
}

#[test]
fn process_reader_streams_bounded_partial_output_before_eof() {
    let mut output = ProcessOutput::new();
    output.append_chunk("stdout", b"{\"n\": 1}\nplain\n");
    let lines = output.read(10);
    assert_eq!(lines.len(), 2);
    assert_eq!(lines[0].value.as_deref(), Some("{\"n\":1}"));
    assert_eq!(lines[1].line, "plain");
    let since = output.read_since(lines[0].sequence, 10);
    assert_eq!(since.len(), 1);
    assert_eq!(since[0].line, "plain");
    for _ in 0..(2 * EXTENSION_PROCESS_LINES) {
        output.append_process_line("stdout", b"again");
    }
    assert_eq!(output.read(10_000).len(), EXTENSION_PROCESS_LINES);
    output.append_process_line("stdout", b"\xff\xfe");
    let last = output.read(10_000).pop().unwrap();
    assert_eq!(last.line, "\u{fffd}\u{fffd}");
}

#[test]
fn processes_are_asked_before_they_are_stopped() {
    let mut step = TerminationStep::terminate_process_tree(true);
    let mut seen = Vec::new();
    while step != TerminationStep::Finished {
        seen.push(step);
        step = step.next(false, true);
    }
    assert_eq!(
        seen,
        vec![
            TerminationStep::AskGroup,
            TerminationStep::AwaitRequest,
            TerminationStep::KillGroup,
            TerminationStep::KillProcess,
            TerminationStep::AwaitForce,
            TerminationStep::LastLook,
        ]
    );
    let willing = TerminationStep::AwaitRequest.next(true, false);
    assert_eq!(willing, TerminationStep::Finished);
    assert_eq!(TerminationStep::terminate_process_tree(false), TerminationStep::KillProcess);
    assert!(awaits_readers(false, false) && !awaits_readers(true, false));
}
