use bootty_app::extensions::capabilities::ExtensionRuntimeCapabilities;
use bootty_app::extensions::cleanup::first_error;
use bootty_app::extensions::command::{
    Caller, CommandInvocation, CommandTarget, OwnerIdentity, ResourceKind,
};
use bootty_app::extensions::error::{CommandOutcome, ExtensionError};
use bootty_app::extensions::ids::{
    extension_scope, namespaced_metadata_namespace, ExtensionGeneration,
};
use bootty_app::extensions::invocation::{
    handler_outcome, invoke_blocking, queue_outcome, QueueRefusal, Received, WorkItem,
};
use bootty_app::extensions::json::Json;
use bootty_app::extensions::lifecycle::{
    LifecyclePublication, PublishOutcome, EXTENSION_LIFECYCLE_DEDUP_LIMIT,
    EXTENSION_LIFECYCLE_PENDING_LIMIT,
};
use bootty_app::extensions::luau::{LuauRegistration, RegistrationPhase, WorkerReply};
use bootty_app::extensions::operations::{
    announcement_name, Operation, OperationEvent, OperationKind, OperationPhase,
};
use bootty_app::extensions::owners::RuntimeOwners;
use bootty_app::extensions::packages::{
    DiscoveryEntry, DiscoveryOutcome, ExtensionPackageInfo, PackageLoading, PersistedPackageState,
};
use bootty_app::extensions::context::ExtensionCommandContext;
use bootty_app::extensions::metadata::{validate_metadata_provenance, MetadataRecord};
use bootty_app::extensions::processes::ProcessWait;
use bootty_app::extensions::runtime::{
    ExtensionPackageManifest, ExtensionResourceBinding, ExtensionRuntime, MetadataBinding,
    MetadataBindingKey, SurfacePresentation, SurfaceRecord, SurfaceSpec,
    EXTENSION_CLEANUP_RETRY_LIMIT,
};

const NAME_LIMIT: usize = 256;
const EVENT_LIMIT: usize = 64 * 1024;

/// What the host's surroundings have seen: published lifecycle events, saved states, and the
/// resources that were handed out.
struct Host {
    runtime: ExtensionRuntime,
    scope: bool,
    announced: Vec<(String, u64, String, String)>,
    saved: Vec<PersistedPackageState>,
    topics: Vec<String>,
    commands: Vec<String>,
    subscriptions: Vec<String>,
    tasks: Vec<String>,
    metadata: Vec<(String, String)>,
    stopped: Vec<String>,
    /// The commands that the scripts of a directory register, and what they give.
    scripts: Vec<(String, Vec<(String, String)>)>,
    /// What the handlers give, by their numbers.
    values: Vec<String>,
}

fn host() -> Host {
    reopened(Vec::new())
}

fn reopened(saved: Vec<PersistedPackageState>) -> Host {
    let owner = OwnerIdentity { pid: 1, generation: 1 };
    let mut runtime = ExtensionRuntime::new(1, owner, NAME_LIMIT, EVENT_LIMIT);
    runtime.set_storage_root("/storage", &saved);
    Host {
        runtime,
        scope: true,
        announced: Vec::new(),
        saved,
        topics: Vec::new(),
        commands: Vec::new(),
        subscriptions: Vec::new(),
        tasks: Vec::new(),
        metadata: Vec::new(),
        stopped: Vec::new(),
        scripts: Vec::new(),
        values: Vec::new(),
    }
}

fn manifest(id: &str) -> ExtensionPackageManifest {
    ExtensionPackageManifest {
        id: id.to_owned(),
        name: id.to_owned(),
        version: "1".to_owned(),
        entrypoint: None,
        storage_namespace: None,
        default_enabled: false,
    }
}

fn too_large() -> ExtensionError {
    ExtensionError::new("event_too_large", "event exceeds the queue")
}

impl Host {
    fn install(&mut self, id: &str) -> ExtensionPackageInfo {
        let saved = self.saved.clone();
        self.runtime.install(manifest(id), &saved).unwrap()
    }

    fn flush(&mut self) -> Result<(), ExtensionError> {
        if !self.scope {
            return Ok(());
        }
        loop {
            let Some(next) = self.runtime.lifecycle.next_pending() else {
                return Ok(());
            };
            if next.snapshot.len() >= EVENT_LIMIT {
                return Err(too_large());
            }
            let entry = (
                next.extension_id.clone(),
                next.generation,
                next.operation.clone(),
                next.snapshot.clone(),
            );
            self.announced.push(entry);
            self.runtime.lifecycle.front_published();
        }
    }

    fn publish_lifecycle(
        &mut self,
        id: &str,
        generation: u64,
        operation: &str,
        snapshot: String,
    ) -> Result<(), ExtensionError> {
        let publication = LifecyclePublication {
            extension_id: id.to_owned(),
            generation,
            operation: operation.to_owned(),
            snapshot,
        };
        let outcome = if !self.scope {
            PublishOutcome::NoScope
        } else if let Err(error) = self.flush() {
            PublishOutcome::FlushFailed(error)
        } else if self.runtime.lifecycle.was_published(id, generation, operation) {
            PublishOutcome::Answered(Ok(()))
        } else if publication.snapshot.len() >= EVENT_LIMIT {
            PublishOutcome::Answered(Err(too_large()))
        } else {
            self.announced.push((
                id.to_owned(),
                generation,
                operation.to_owned(),
                publication.snapshot.clone(),
            ));
            PublishOutcome::Answered(Ok(()))
        };
        self.runtime.lifecycle.publish_lifecycle(publication, outcome)
    }

    fn snapshot(&self) -> String {
        let inventory = self.runtime.lifecycle_snapshot(None);
        format!("{:?}", inventory)
    }

    fn cleanup(
        &mut self,
        id: &str,
        generation: u64,
        announce: Option<&str>,
    ) -> Result<(), ExtensionError> {
        let plan = self.runtime.cleanup_generation(id, generation);
        for (process, _) in &plan.processes.entries {
            self.stopped.push(process.clone());
        }
        let mut results = Vec::new();
        for (command, _) in &plan.commands.entries {
            self.commands.retain(|known| known != command);
        }
        for (topic, _) in &plan.events.entries {
            self.topics.retain(|known| known != topic);
        }
        for (subscription, _) in &plan.subscriptions.entries {
            self.subscriptions.retain(|known| known != subscription);
        }
        for (task, _) in &plan.tasks.entries {
            self.tasks.retain(|known| known != task);
        }
        for (_, binding) in &plan.metadata.entries {
            let id = &binding.resource.generation.extension_id;
            match namespaced_metadata_namespace(id, &binding.namespace, NAME_LIMIT) {
                Ok(namespace) => {
                    self.metadata
                        .retain(|known| known != &(namespace.clone(), binding.key.clone()));
                    results.push(Ok(()));
                }
                Err(error) => results.push(Err(error)),
            }
        }
        let error = first_error(results);
        self.runtime.finish_cleanup(id, generation, error)?;
        match announce {
            Some(operation) => {
                let snapshot =
                    format!("{:?}", self.runtime.lifecycle_snapshot(Some((id, generation))));
                let announced = self.publish_lifecycle(id, generation, operation, snapshot);
                self.runtime.settle_cleanup(id, generation, Some((operation, announced)))
            }
            None => self.runtime.settle_cleanup(id, generation, None),
        }
    }

    fn perform(&mut self, operation: &Operation) -> Result<(), ExtensionError> {
        let id = operation.id.clone();
        match operation.phase {
            OperationPhase::Flush => self.flush(),
            OperationPhase::Persist => {
                let enabled = matches!(operation.kind, OperationKind::Enable);
                self.saved = self.runtime.package_states_with_override(Some((&id, enabled)));
                Ok(())
            }
            OperationPhase::PersistBack => {
                self.saved = self.runtime.package_states_with_override(Some((&id, false)));
                Ok(())
            }
            OperationPhase::ReadSource => Ok(()),
            OperationPhase::CleanUp => {
                let announce = match operation.kind {
                    OperationKind::Reload => Some("retired"),
                    _ => None,
                };
                self.cleanup(&id, operation.generation, announce)
            }
            OperationPhase::Load => {
                let nested = self.runtime.load_linked_package(&id);
                self.run(nested)
            }
            OperationPhase::Register => {
                let source = self.runtime.package_source_root(&id).unwrap();
                let found = self.scripts.iter().find(|(path, _)| *path == source);
                let commands = found.map(|(_, commands)| commands.clone()).unwrap_or_default();
                self.register_scripts(&id, operation.generation, &commands)
            }
            OperationPhase::Publish => {
                let name = announcement_name(operation.announcement);
                let snapshot = self.snapshot();
                self.publish_lifecycle(&id, operation.generation, name, snapshot)
            }
            OperationPhase::Undo => self.cleanup(&id, operation.generation, None),
            OperationPhase::Finished => Ok(()),
        }
    }

    fn register_scripts(
        &mut self,
        id: &str,
        generation: u64,
        commands: &[(String, String)],
    ) -> Result<(), ExtensionError> {
        let worker = format!("{id}@{generation}@{}", self.values.len());
        self.runtime.register_luau_package(id, generation, &worker)?;
        let reply = WorkerReply::Registered { events: 0, commands: commands.len() };
        let mut registration = LuauRegistration::new().replied(reply);
        while let RegistrationPhase::Command(index) = registration.phase {
            let (command, value) = &commands[index];
            let handler = self.values.len() as u64;
            self.values.push(value.clone());
            let result = self.runtime.register_command(id, generation, command).and_then(
                |reservation| {
                    let commit =
                        self.runtime.commit_command(id, generation, reservation, handler, Ok(()));
                    commit.result
                },
            );
            if result.is_ok() {
                self.commands.push(command.clone());
            }
            registration = registration.advance(result);
        }
        if registration.phase == RegistrationPhase::Finished {
            return Ok(());
        }
        self.runtime.remove_lua_worker(&worker);
        if registration.phase == RegistrationPhase::StopAndCleanUp {
            self.cleanup(id, generation, None).unwrap();
        }
        Err(registration.failure.unwrap())
    }

    fn invoke(&self, command: &str) -> CommandOutcome {
        let item = match self.runtime.invoke_async(command, None, false) {
            Ok(item) => item,
            Err(outcome) => return outcome,
        };
        assert!(self.runtime.execute(&item, false, false).is_none());
        assert!(self.runtime.execute_started(&item, true, false, false).is_none());
        let value = self.values[item.handler as usize].clone();
        let outcome = handler_outcome(Some(Ok(value)));
        invoke_blocking(false, Received::Outcome(outcome), false).unwrap()
    }

    /// Searches a directory for packages, each given by its path and its identifier, and loads them.
    fn discover_and_load(
        &mut self,
        packages: &[(&str, &str)],
    ) -> Result<Vec<ExtensionPackageInfo>, ExtensionError> {
        let mut outcome = DiscoveryOutcome::empty();
        for (path, id) in packages {
            let mut manifest = manifest(id);
            manifest.entrypoint = Some("main.luau".to_owned());
            manifest.default_enabled = true;
            let entry = DiscoveryEntry::Package {
                manifest,
                path: (*path).to_owned(),
                resolved: (*path).to_owned(),
                installed_source: self.runtime.package_source_root(id).ok(),
            };
            self.runtime.discover_root(&mut outcome, entry, &[]);
        }
        let mut loading = PackageLoading::discover_and_load(outcome);
        while let Some(info) = loading.next() {
            let operation = self.runtime.load_linked_package(&info.id);
            let result = self.run(operation).and_then(|()| self.runtime.package(&info.id));
            loading.record(result);
        }
        loading.finish()
    }

    fn run(&mut self, operation: Operation) -> Result<(), ExtensionError> {
        let mut operation = operation;
        while operation.phase != OperationPhase::Finished {
            let result = self.perform(&operation);
            operation = self.runtime.advance(operation, OperationEvent { result });
        }
        match operation.failure {
            Some(error) => Err(error),
            None => Ok(()),
        }
    }

    fn enable(&mut self, id: &str) -> Result<ExtensionPackageInfo, ExtensionError> {
        let operation = self.runtime.enable(id);
        self.run(operation)?;
        self.runtime.package(id)
    }

    fn disable(&mut self, id: &str) -> Result<ExtensionPackageInfo, ExtensionError> {
        let operation = self.runtime.disable(id);
        self.run(operation)?;
        self.runtime.package(id)
    }

    fn reload(&mut self, id: &str) -> Result<ExtensionPackageInfo, ExtensionError> {
        let operation = self.runtime.reload(id);
        self.run(operation)?;
        self.runtime.package(id)
    }

    fn register_command(
        &mut self,
        id: &str,
        generation: u64,
        command: &str,
    ) -> Result<(), ExtensionError> {
        let reservation = self.runtime.register_command(id, generation, command)?;
        let committed = self.runtime.commit_command(id, generation, reservation, 7, Ok(()));
        assert!(!committed.undo);
        self.commands.push(command.to_owned());
        committed.result
    }

    fn register_event(
        &mut self,
        id: &str,
        generation: u64,
        name: &str,
    ) -> Result<String, ExtensionError> {
        let topic = self.runtime.register_event(id, generation, name)?;
        let committed = self.runtime.commit_event(id, generation, topic, Ok(()));
        let registration = committed.result?;
        self.topics.push(registration.topic.clone());
        Ok(registration.topic)
    }
}

#[test]
fn command_generation_reload_rejects_stale_invocations() {
    let mut host = host();
    host.install("sample.extension");
    host.enable("sample.extension").unwrap();
    let generation = host.runtime.package("sample.extension").unwrap().generation;
    host.register_command("sample.extension", generation, "sample.extension.echo").unwrap();
    let item = host.runtime.invoke_async("sample.extension.echo", None, false).unwrap();
    assert!(host.runtime.execute(&item, false, false).is_none());
    assert!(host.runtime.execute_started(&item, true, false, false).is_none());
    let outcome = handler_outcome(Some(Ok("\"ok\"".to_owned())));
    let outcome = invoke_blocking(false, Received::Outcome(outcome), false).unwrap();
    assert!(matches!(outcome, CommandOutcome::Success { .. }));
    host.reload("sample.extension").unwrap();
    let stale = host.register_command("sample.extension", generation, "sample.extension.stale");
    assert!(stale.is_err());
    assert!(host.runtime.execute(&item, false, false).is_some());
}

#[test]
fn concurrent_event_registration_has_one_reservation_winner() {
    let mut host = host();
    host.install("sample.extension");
    host.enable("sample.extension").unwrap();
    let generation = host.runtime.package("sample.extension").unwrap().generation;
    let first = host.runtime.register_event("sample.extension", generation, "shared.topic");
    let second = host.runtime.register_event("sample.extension", generation, "shared.topic");
    assert!(first.is_ok());
    assert!(second.is_err());
}

#[test]
fn exact_invocation_rejects_reloaded_generation() {
    let mut host = host();
    host.install("generation.extension");
    host.enable("generation.extension").unwrap();
    let generation = host.runtime.package("generation.extension").unwrap().generation;
    host.register_command("generation.extension", generation, "generation.extension.echo")
        .unwrap();
    host.reload("generation.extension").unwrap();
    let outcome = host
        .runtime
        .invoke_async_exact("generation.extension.echo", "generation.extension", generation, false)
        .unwrap_err();
    assert!(matches!(
        outcome,
        CommandOutcome::Failed { code, .. } if code == "stale_generation"
    ));
}

#[test]
fn lifecycle_reload_publishes_retirement_then_new_generation_snapshot() {
    let mut host = host();
    let id = "lifecycle.extension";
    host.install(id);
    host.runtime.link(id, "/source").unwrap();
    host.enable(id).unwrap();
    let seen: Vec<(u64, String)> =
        host.announced.iter().map(|entry| (entry.1, entry.2.clone())).collect();
    assert_eq!(seen, vec![(1, "loaded".to_owned())]);
    host.reload(id).unwrap();
    let seen: Vec<(u64, String)> =
        host.announced.iter().skip(1).map(|entry| (entry.1, entry.2.clone())).collect();
    assert_eq!(seen, vec![(1, "retired".to_owned()), (2, "reloaded".to_owned())]);
    let generation = host.runtime.package(id).unwrap().generation;
    assert_eq!(generation, 2);
    host.register_command(id, generation, "lifecycle.extension.echo").unwrap();
    host.register_event(id, generation, "changed").unwrap();
    let snapshot = host.runtime.lifecycle_snapshot(None);
    assert_eq!(snapshot.modules[0].generation, 2);
    assert_eq!(snapshot.commands[0].name, "lifecycle.extension.echo");
    assert_eq!(snapshot.commands[0].generation.generation, 2);
    assert_eq!(snapshot.events[0].name, "lifecycle.extension.changed");
    assert_eq!(snapshot.events[0].generation.generation, 2);
}

#[test]
fn lifecycle_disable_publishes_disabled_for_retiring_generation() {
    let mut host = host();
    host.install("disable.extension");
    host.enable("disable.extension").unwrap();
    assert_eq!(host.announced[0].2, "enabled_pending_source");

    host.disable("disable.extension").unwrap();
    assert_eq!(host.announced.len(), 2);
    assert_eq!(host.announced[1].2, "disabled");
    assert_eq!(host.announced[1].1, 1);
    assert!(host.runtime.lifecycle_snapshot(None).modules.is_empty());
}

#[test]
fn lifecycle_dedup_is_bounded_and_backpressure_precedes_reload_mutation() {
    let mut host = host();
    host.scope = false;
    let id = "lifecycle-backpressure.extension";
    host.install(id);
    host.enable(id).unwrap();
    host.runtime.lifecycle.pending.clear();
    for generation in 1..=(EXTENSION_LIFECYCLE_DEDUP_LIMIT as u64 + 32) {
        host.runtime.lifecycle.mark_published(&LifecyclePublication {
            extension_id: id.to_owned(),
            generation,
            operation: "reloaded".to_owned(),
            snapshot: "null".to_owned(),
        });
    }
    assert!(host.runtime.lifecycle.published.len() <= EXTENSION_LIFECYCLE_DEDUP_LIMIT);
    for index in 0..(EXTENSION_LIFECYCLE_PENDING_LIMIT - 2) {
        host.runtime.lifecycle.pending.push(LifecyclePublication {
            extension_id: format!("pending-{index}"),
            generation: 1,
            operation: "reloaded".to_owned(),
            snapshot: "null".to_owned(),
        });
    }
    let info = host.reload(id).unwrap();
    assert_eq!(info.generation, 2);
    let error = host.reload(id).unwrap_err();
    assert_eq!(error.code, "lifecycle_backpressure");
    assert_eq!(host.runtime.package(id).unwrap().generation, 2);
}

#[test]
fn lifecycle_publication_retry_preserves_order_and_deduplicates() {
    let mut host = host();
    let oversized = "x".repeat(EVENT_LIMIT);
    assert!(host.publish_lifecycle("retry.extension", 1, "retired", oversized).is_err());
    host.runtime.lifecycle.pending[0].snapshot = "{}".to_owned();
    host.publish_lifecycle("retry.extension", 1, "retired", "{}".to_owned()).unwrap();
    assert_eq!(host.announced.len(), 1);
    assert_eq!(host.announced[0].2, "retired");
    assert_eq!(host.announced[0].1, 1);
    host.publish_lifecycle("retry.extension", 1, "retired", "{}".to_owned()).unwrap();
    assert_eq!(host.announced.len(), 1);
}

#[test]
fn lifecycle_publish_failure_does_not_leave_disable_in_cancelled_state() {
    let mut host = host();
    let id = "disable-failure.extension";
    host.install(id);
    host.enable(id).unwrap();
    let generation = host.runtime.package(id).unwrap().generation;
    let oversized = "x".repeat(EVENT_LIMIT);
    assert!(host.publish_lifecycle(id, generation, "retired", oversized).is_err());

    let info = host.disable(id).unwrap();
    assert!(!info.enabled);
    assert!(!host.runtime.package(id).unwrap().enabled);
}

#[test]
fn lifecycle_publish_failure_does_not_leave_reload_on_cancelled_generation() {
    let mut host = host();
    let id = "reload-failure.extension";
    host.install(id);
    host.enable(id).unwrap();
    let generation = host.runtime.package(id).unwrap().generation;
    let oversized = "x".repeat(EVENT_LIMIT);
    assert!(host.publish_lifecycle(id, generation, "retired", oversized).is_err());

    let info = host.reload(id).unwrap();
    assert_eq!(info.generation, generation + 1);
    assert!(info.enabled);
    assert!(host.runtime.generation_is_active(id, info.generation));
}

#[test]
fn cleanup_retry_capacity_failure_preserves_durable_enablement() {
    let mut host = host();
    let id = "cleanup-capacity.extension";
    host.install(id);
    host.enable(id).unwrap();
    for index in 0..EXTENSION_CLEANUP_RETRY_LIMIT {
        let occupied = format!("occupied-{index}.extension");
        host.runtime.record_cleanup_retry(&occupied, 1).unwrap();
    }
    let error = host.runtime.ensure_cleanup_retry_capacity(id, 1).unwrap_err();
    assert_eq!(error.code, "cleanup_retry_full");
    assert!(host.runtime.package(id).unwrap().enabled);
    assert_eq!(host.disable(id).unwrap_err().code, "cleanup_retry_full");
    assert!(host.saved.iter().any(|state| state.id == id && state.enabled));
    for index in 0..EXTENSION_CLEANUP_RETRY_LIMIT {
        let occupied = format!("occupied-{index}.extension");
        host.runtime.clear_cleanup_retry(&occupied, 1);
    }
    host.disable(id).unwrap();
    let mut reopened = reopened(host.saved.clone());
    assert!(!reopened.install(id).enabled);
}

#[test]
fn package_enablement_persists_without_auto_enabling_disabled_packages() {
    let mut first = host();
    first.install("persist.extension");
    first.enable("persist.extension").unwrap();
    let mut second = reopened(first.saved.clone());
    let info = second.install("persist.extension");
    assert!(info.enabled);
    second.disable("persist.extension").unwrap();
    let mut third = reopened(second.saved.clone());
    let info = third.install("persist.extension");
    assert!(!info.enabled);
}

#[test]
fn discover_missing_root_is_empty_success() {
    let loading = PackageLoading::discover_and_load(DiscoveryOutcome::empty());
    assert!(loading.finish().unwrap().is_empty());
}

fn gives(outcome: CommandOutcome, text: &str) -> bool {
    matches!(outcome, CommandOutcome::Success { value } if value == format!("\"{text}\""))
}

fn script(path: &str, command: &str, text: &str) -> (String, Vec<(String, String)>) {
    (path.to_owned(), vec![(command.to_owned(), format!("\"{text}\""))])
}

#[test]
fn discover_duplicate_sources_keep_first_and_continue_other_packages() {
    let mut host = host();
    host.scripts = vec![
        script("/bundled/trusted.extension", "trusted.extension.source", "bundled"),
        script("/user/trusted.extension", "trusted.extension.source", "user"),
        script("/user/other.extension", "other.extension.source", "other"),
    ];
    let bundled = [("/bundled/trusted.extension", "trusted.extension")];
    let user = [
        ("/user/trusted.extension", "trusted.extension"),
        ("/user/other.extension", "other.extension"),
    ];
    let loaded = host.discover_and_load(&bundled).unwrap();
    assert_eq!(loaded.len(), 1);
    let conflict = host.discover_and_load(&user).unwrap_err();
    assert_eq!(conflict.code, "extension_source_conflict");
    assert!(gives(host.invoke("trusted.extension.source"), "bundled"));
    assert!(gives(host.invoke("other.extension.source"), "other"));
    let idempotent = host.discover_and_load(&bundled).unwrap();
    assert_eq!(idempotent.len(), 1);
    assert!(gives(host.invoke("trusted.extension.source"), "bundled"));
}

#[test]
fn luau_registration_rolls_back_partial_commands_on_collision() {
    let mut host = host();
    let id = "collision.extension";
    host.install(id);
    host.runtime.link(id, "/collision").unwrap();
    host.enable(id).unwrap();
    let generation = host.runtime.package(id).unwrap().generation;
    let command = "collision.extension.first".to_owned();
    let error = host
        .register_scripts(
            id,
            generation,
            &[
                (command.clone(), "\"first\"".to_owned()),
                (command.clone(), "\"duplicate\"".to_owned()),
            ],
        )
        .unwrap_err();
    assert_eq!(error.code, "command_collision");
    assert!(matches!(
        host.invoke(&command),
        CommandOutcome::Failed { code, .. } if code == "unknown_command"
    ));
}

#[test]
fn disable_then_enable_reloads_linked_commands() {
    let mut host = host();
    let id = "reenable.extension";
    host.scripts = vec![script("/source", "reenable.extension.echo", "ready")];
    host.install(id);
    host.runtime.link(id, "/source").unwrap();
    host.enable(id).unwrap();
    assert!(gives(host.invoke("reenable.extension.echo"), "ready"));
    assert!(host.runtime.generation_has_worker(id, 1));
    host.disable(id).unwrap();
    assert!(!host.runtime.generation_has_worker(id, 1));
    assert!(matches!(
        host.invoke("reenable.extension.echo"),
        CommandOutcome::Failed { code, .. } if code == "unknown_command"
    ));
    let info = host.enable(id).unwrap();
    assert!(host.runtime.generation_has_worker(id, info.generation));
    assert!(gives(host.invoke("reenable.extension.echo"), "ready"));
}

#[test]
fn extension_tasks_bind_generation_and_owner_before_hub_access() {
    let mut host = host();
    host.install("first.extension");
    host.install("second.extension");
    host.enable("first.extension").unwrap();
    host.enable("second.extension").unwrap();
    let first_generation = host.runtime.package("first.extension").unwrap().generation;
    let second_generation = host.runtime.package("second.extension").unwrap().generation;
    let owner = OwnerIdentity { pid: 71, generation: 11 };
    let scope = extension_scope("first.extension", first_generation);
    let binding = host
        .runtime
        .start_task("first.extension", first_generation, owner, &scope)
        .unwrap();
    let committed = host.runtime.commit_task(
        "first.extension",
        first_generation,
        binding,
        Ok("task-1".to_owned()),
    );
    committed.result.unwrap();
    let cross_extension = host
        .runtime
        .task_status("task-1", "second.extension", second_generation, owner)
        .unwrap_err();
    assert_eq!(cross_extension.code, "task_owner_mismatch");
    host.reload("first.extension").unwrap();
    let stale = host
        .runtime
        .task_status("task-1", "first.extension", first_generation, owner)
        .unwrap_err();
    assert_eq!(stale.code, "stale_generation");
}

#[test]
fn process_quota_is_enforced_per_generation() {
    let mut host = host();
    let id = "quota.extension";
    host.install(id);
    host.enable(id).unwrap();
    for _ in 0..16 {
        host.runtime.spawn_process(id, 1, "sh", &[]).result.unwrap();
        host.runtime.commit_process(id, 1, Ok(())).result.unwrap();
    }
    let error = host.runtime.spawn_process(id, 1, "sh", &[]).result.unwrap_err();
    assert_eq!(error.code, "process_quota_exceeded");
    let ended = host.runtime.processes.entries[0].0.clone();
    let reservation = host.runtime.spawn_process(id, 1, "sh", &[ended.clone()]);
    reservation.result.unwrap();
    assert_eq!(reservation.retired, vec![ended]);
}

#[test]
fn process_control_requires_exact_extension_and_generation() {
    let mut host = host();
    host.install("owner-a.extension");
    host.install("owner-b.extension");
    host.runtime.link("owner-a.extension", "/owners").unwrap();
    host.runtime.link("owner-b.extension", "/owners").unwrap();
    host.enable("owner-a.extension").unwrap();
    host.enable("owner-b.extension").unwrap();
    let generation_a = host.runtime.package("owner-a.extension").unwrap().generation;
    let generation_b = host.runtime.package("owner-b.extension").unwrap().generation;
    let reserved = host.runtime.spawn_process("owner-a.extension", generation_a, "sh", &[]);
    reserved.result.unwrap();
    let status =
        host.runtime.commit_process("owner-a.extension", generation_a, Ok(())).result.unwrap();
    assert_eq!(
        host.runtime
            .process_status("owner-b.extension", generation_b, &status.id, Ok(None))
            .unwrap_err()
            .code,
        "stale_generation"
    );
    assert_eq!(
        host.runtime
            .process_signal("owner-a.extension", generation_a + 1, &status.id, Ok(false))
            .unwrap_err()
            .code,
        "stale_generation"
    );
    host.runtime.begin_process_wait("owner-a.extension", generation_a, &status.id).unwrap();
    let foreign =
        host.runtime.begin_process_wait("owner-b.extension", generation_b, &status.id).unwrap_err();
    assert_eq!(foreign.code, "stale_generation");
    host.runtime.process_output(&status.id, "stdout", b"one\ntwo");
    let lines =
        host.runtime.process_read("owner-a.extension", generation_a, &status.id, 10).unwrap();
    assert_eq!(lines[0].line, "one");
    host.reload("owner-a.extension").unwrap();
    assert_eq!(
        host.runtime
            .process_status("owner-a.extension", generation_a, &status.id, Ok(None))
            .unwrap_err()
            .code,
        "unknown_process"
    );
    let gone =
        host.runtime.begin_process_wait("owner-a.extension", generation_a, &status.id).unwrap_err();
    assert_eq!(gone.code, "unknown_process");
}

#[test]
fn cleanup_reaps_process_before_external_cleanup_retry() {
    let mut host = host();
    let id = "cleanup-process.extension";
    host.install(id);
    host.enable(id).unwrap();
    let generation = host.runtime.package(id).unwrap().generation;
    host.runtime.spawn_process(id, generation, "sh", &[]).result.unwrap();
    let status = host.runtime.commit_process(id, generation, Ok(())).result.unwrap();
    let binding = |owner: OwnerIdentity| ExtensionResourceBinding {
        generation: ExtensionGeneration { extension_id: id.to_owned(), generation },
        owner,
        scope: extension_scope(id, generation),
    };
    let owner = host.runtime.owner;
    let key = |namespace: &str| MetadataBindingKey {
        resource: binding(owner),
        namespace: namespace.to_owned(),
        key: "key".to_owned(),
        target: None,
    };
    let invalid = MetadataBinding {
        resource: binding(owner),
        namespace: "../invalid".to_owned(),
        key: "key".to_owned(),
        target: None,
    };
    host.runtime.metadata.insert(key("../invalid"), invalid);

    let error = host.cleanup(id, generation, None).unwrap_err();
    assert_eq!(error.code, "invalid_metadata");
    assert_eq!(host.stopped, vec![status.id.clone()]);
    assert!(host.runtime.processes.get(&status.id).is_none());
    assert!(host.runtime.metadata.contains(&key("../invalid")));
    assert!(host.runtime.cleanup_pending(id));
    assert_eq!(host.enable(id).unwrap_err().code, "cleanup_pending");

    host.runtime.metadata.entries[0].1.namespace = "valid".to_owned();
    host.cleanup(id, generation, None).unwrap();
    assert!(!host.runtime.cleanup_pending(id));
    assert!(host.runtime.metadata.entries.is_empty());
}

#[test]
fn dropping_runtime_cleans_only_its_shared_extension_resources() {
    let mut host = host();
    let owner = OwnerIdentity { pid: 41, generation: 1 };
    let id = "drop-shared.extension";
    host.install(id);
    host.enable(id).unwrap();
    let generation = host.runtime.package(id).unwrap().generation;
    let command = format!("{id}.echo");
    host.register_command(id, generation, &command).unwrap();
    let topic = host.register_event(id, generation, "changed").unwrap();
    let scope = extension_scope(id, generation);
    host.runtime.subscribe_event(id, generation, &topic, &scope).unwrap();
    host.runtime.commit_subscription(id, generation, owner, "subscription-1").unwrap();
    host.subscriptions.push("subscription-1".to_owned());
    let binding = host.runtime.start_task(id, generation, owner, &scope).unwrap();
    host.runtime
        .commit_task(id, generation, binding, Ok("task-1".to_owned()))
        .result
        .unwrap();
    host.tasks.push("task-1".to_owned());
    let provenance = Json::Object(vec![("extension_id".to_owned(), Json::Text(id.to_owned()))]);
    let place = host
        .runtime
        .publish_metadata(id, generation, owner, &scope, "state", &None, &provenance)
        .unwrap();
    assert_eq!(place.namespace, "drop-shared.extension:state");
    host.metadata.push((place.namespace.clone(), "key".to_owned()));
    host.runtime.commit_metadata(place, "state".to_owned(), "key".to_owned(), None);

    host.topics.push("unrelated.event".to_owned());
    host.subscriptions.push("unrelated-subscription".to_owned());
    host.tasks.push("unrelated-task".to_owned());
    host.metadata.push(("state".to_owned(), "key".to_owned()));

    let generations = host.runtime.shutdown_and_cleanup();
    for generation in generations {
        host.cleanup(&generation.extension_id, generation.generation, None).unwrap();
    }
    host.runtime.finish_shutdown();

    assert!(host.commands.is_empty());
    assert_eq!(host.topics, vec!["unrelated.event".to_owned()]);
    assert_eq!(host.subscriptions, vec!["unrelated-subscription".to_owned()]);
    assert_eq!(host.tasks, vec!["unrelated-task".to_owned()]);
    assert_eq!(host.metadata, vec![("state".to_owned(), "key".to_owned())]);
    assert_eq!(host.runtime.ensure_running().unwrap_err().code, "extension_stopped");
}

fn capabilities(id: &str, generation: u64, owner: OwnerIdentity) -> ExtensionRuntimeCapabilities {
    ExtensionRuntimeCapabilities {
        generation: ExtensionGeneration { extension_id: id.to_owned(), generation },
        owner,
    }
}

#[test]
fn event_capabilities_reject_cross_extension_and_forged_scope_access() {
    let mut host = host();
    host.install("event-a.extension");
    host.install("event-b.extension");
    host.enable("event-a.extension").unwrap();
    host.enable("event-b.extension").unwrap();
    let generation_a = host.runtime.package("event-a.extension").unwrap().generation;
    let generation_b = host.runtime.package("event-b.extension").unwrap().generation;
    host.register_event("event-a.extension", generation_a, "topic").unwrap();
    host.register_event("event-b.extension", generation_b, "topic").unwrap();
    let owner = OwnerIdentity { pid: 900, generation: 1 };
    let held = capabilities("event-a.extension", generation_a, owner);

    let publish_error = held
        .publish_event(&host.runtime, "event-b.extension.topic", "null", &None)
        .unwrap_err();
    assert_eq!(publish_error.code, "stale_generation");
    let subscribe_error =
        held.subscribe_event(&host.runtime, "event-b.extension.topic").unwrap_err();
    assert_eq!(subscribe_error.code, "stale_generation");
    let forged_target = held
        .publish_event(
            &host.runtime,
            "event-a.extension.topic",
            "null",
            &Some(CommandTarget {
                kind: ResourceKind::Extension,
                handle: "event-b.extension".to_owned(),
                generation: generation_b,
            }),
        )
        .unwrap_err();
    assert_eq!(forged_target.code, "invalid_binding_target");
    let forged_scope = host
        .runtime
        .publish_event(
            "event-a.extension",
            generation_a,
            "event-a.extension.topic",
            "instance:forged",
            "null",
            &None,
        )
        .unwrap_err();
    assert_eq!(forged_scope.code, "invalid_binding_scope");
    let forged_subscription_scope = host
        .runtime
        .subscribe_event(
            "event-a.extension",
            generation_a,
            "event-a.extension.topic",
            "instance:forged",
        )
        .unwrap_err();
    assert_eq!(forged_subscription_scope.code, "invalid_binding_scope");
}

#[test]
fn stale_event_capability_cannot_retain_subscription_after_reload() {
    let mut host = host();
    let id = "event-stale.extension";
    host.install(id);
    host.enable(id).unwrap();
    let generation = host.runtime.package(id).unwrap().generation;
    host.register_event(id, generation, "topic").unwrap();
    let owner = OwnerIdentity { pid: 901, generation: 1 };
    let held = capabilities(id, generation, owner);
    held.subscribe_event(&host.runtime, "event-stale.extension.topic").unwrap();
    held.commit_subscription(&mut host.runtime, "subscription-1").unwrap();
    host.subscriptions.push("subscription-1".to_owned());
    host.reload(id).unwrap();
    let stale = held
        .subscribe_event(&host.runtime, "event-stale.extension.topic")
        .unwrap_err();
    assert_eq!(stale.code, "stale_generation");
    assert!(host.runtime.subscriptions.get(&"subscription-1".to_owned()).is_none());
    assert!(host.subscriptions.is_empty());
}

#[test]
fn enable_persistence_failure_preserves_memory_and_reopen_state() {
    let mut host = host();
    let id = "enable-persistence.extension";
    host.install(id);
    let mut operation = host.runtime.enable(id);
    operation = host.runtime.advance(operation, OperationEvent { result: Ok(()) });
    assert_eq!(operation.phase, OperationPhase::Persist);
    let error = ExtensionError::new("storage_unavailable", "is a directory");
    operation = host.runtime.advance(operation, OperationEvent { result: Err(error) });
    assert_eq!(operation.failure.unwrap().code, "storage_unavailable");
    assert!(!host.runtime.package(id).unwrap().enabled);

    host.enable(id).unwrap();
    let mut reopened = reopened(host.saved.clone());
    assert!(reopened.install(id).enabled);
}

#[test]
fn disable_persistence_failure_preserves_enabled_memory_until_retry() {
    let mut host = host();
    let id = "disable-persistence.extension";
    host.install(id);
    host.enable(id).unwrap();
    let mut operation = host.runtime.disable(id);
    operation = host.runtime.advance(operation, OperationEvent { result: Ok(()) });
    let error = ExtensionError::new("storage_unavailable", "is a directory");
    operation = host.runtime.advance(operation, OperationEvent { result: Err(error) });
    assert!(operation.failure.is_some());
    assert!(host.runtime.package(id).unwrap().enabled);
    host.disable(id).unwrap();
    let mut reopened = reopened(host.saved.clone());
    assert!(!reopened.install(id).enabled);
}

#[test]
fn linked_load_failure_returns_without_recursive_lifecycle_deadlock() {
    let mut host = host();
    let id = "linked-failure.extension";
    host.install(id);
    host.runtime.link(id, "/missing").unwrap();
    let mut operation = host.runtime.enable(id);
    operation = host.runtime.advance(operation, OperationEvent { result: Ok(()) });
    operation = host.runtime.advance(operation, OperationEvent { result: Ok(()) });
    assert_eq!(operation.phase, OperationPhase::Load);
    let error = ExtensionError::new("extension_entrypoint_missing", "no such file");
    operation = host.runtime.advance(operation, OperationEvent { result: Err(error) });
    assert_eq!(operation.phase, OperationPhase::PersistBack);
    operation = host.runtime.advance(operation, OperationEvent { result: Ok(()) });
    assert_eq!(operation.phase, OperationPhase::Finished);
    assert_eq!(operation.failure.unwrap().code, "extension_entrypoint_missing");
    assert!(!host.runtime.package(id).unwrap().enabled);
}

fn surface(id: &str) -> SurfaceSpec {
    SurfaceSpec {
        id: id.to_owned(),
        title: "Title".to_owned(),
        presentation: SurfacePresentation::Docked,
        payload: "{}".to_owned(),
    }
}

#[test]
fn surfaces_belong_to_their_generation() {
    let mut host = host();
    host.install("surface.extension");
    host.enable("surface.extension").unwrap();
    let opened = host.runtime.open_surface("surface.extension", 1, surface("panel")).unwrap();
    assert_eq!(opened.operation, "opened");
    assert_eq!(opened.surface.id, "panel");
    let unnamed = host.runtime.open_surface("surface.extension", 1, surface("")).unwrap_err();
    assert_eq!(unnamed.code, "invalid_surface");
    let long = "x".repeat(129);
    let long = host.runtime.open_surface("surface.extension", 1, surface(&long)).unwrap_err();
    assert_eq!(long.code, "invalid_surface");
    let stale = host.runtime.open_surface("surface.extension", 2, surface("panel")).unwrap_err();
    assert_eq!(stale.code, "stale_generation");
    assert!(host.runtime.close_surface("surface.extension", 1, "panel").unwrap().is_none());

    let record = |id: &str, extension: &str| SurfaceRecord {
        spec: surface(id),
        generation: ExtensionGeneration { extension_id: extension.to_owned(), generation: 1 },
    };
    host.runtime.surfaces.insert("b".to_owned(), record("b", "surface.extension"));
    host.runtime.surfaces.insert("a".to_owned(), record("a", "other.extension"));
    let foreign = host.runtime.open_surface("surface.extension", 1, surface("a")).unwrap_err();
    assert_eq!(foreign.code, "surface_collision");
    let foreign = host.runtime.close_surface("surface.extension", 1, "a").unwrap_err();
    assert_eq!(foreign.code, "stale_generation");
    let closed = host.runtime.close_surface("surface.extension", 1, "b").unwrap().unwrap();
    assert_eq!(closed.operation, "closed");
    let all: Vec<String> =
        host.runtime.surfaces(None).into_iter().map(|event| event.surface.id).collect();
    assert_eq!(all, vec!["a".to_owned(), "b".to_owned()]);
    let own = host.runtime.surfaces(Some("surface.extension"));
    assert_eq!(own.len(), 1);
    assert_eq!(own[0].operation, "active");
    host.runtime.open_surface_failed("b");
    assert!(host.runtime.surfaces(Some("surface.extension")).is_empty());
}

#[test]
fn ended_processes_are_reported_once() {
    let mut host = host();
    let id = "run.extension";
    host.install(id);
    host.enable(id).unwrap();
    let mut start = |runtime: &mut ExtensionRuntime| {
        runtime.spawn_process(id, 1, "sh", &[]).result.unwrap();
        runtime.commit_process(id, 1, Ok(())).result.unwrap().id
    };
    let runtime = &mut host.runtime;
    let first = start(runtime);
    assert!(runtime.process_write(id, 1, &first, b"input").is_ok());
    let large = vec![0u8; 128 * 1024 + 1];
    let large = runtime.process_write(id, 1, &first, &large).unwrap_err();
    assert_eq!(large.code, "process_input_too_large");
    runtime.process_output(&first, "stdout", b"one\ntwo\n");
    let later = runtime.process_read_since(id, 1, &first, 1, 10).unwrap();
    assert_eq!(later.len(), 1);
    assert_eq!(later[0].line, "two");
    assert!(runtime.process_status(id, 1, &first, Ok(None)).unwrap().running);
    let failed = runtime.process_status(id, 1, &first, Err("no child".to_owned())).unwrap_err();
    assert_eq!(failed.code, "process_wait_failed");
    let ended = runtime.process_status(id, 1, &first, Ok(Some(Some(3)))).unwrap();
    assert!(!ended.running);
    assert_eq!(ended.exit_code, Some(3));
    assert!(runtime.process_status(id, 1, &first, Ok(None)).is_err());

    let second = start(runtime);
    assert!(matches!(
        runtime.process_wait(id, 1, &second, true, true, Ok(None)),
        ProcessWait::Failed(error) if error.code == "cancelled"
    ));
    assert!(matches!(
        runtime.process_wait(id, 1, &second, false, true, Ok(None)),
        ProcessWait::Failed(error) if error.code == "deadline_exceeded"
    ));
    assert!(matches!(
        runtime.process_wait(id, 1, &second, false, false, Ok(None)),
        ProcessWait::Again
    ));
    assert!(matches!(
        runtime.process_wait(id, 1, &second, false, false, Ok(Some(None))),
        ProcessWait::Ended(status) if status.exit_code.is_none() && !status.running
    ));

    let third = start(runtime);
    let closed = runtime.process_signal(id, 1, &third, Ok(true)).unwrap_err();
    assert_eq!(closed.code, "process_closed");
    let fourth = start(runtime);
    runtime.process_signal(id, 1, &fourth, Ok(false)).unwrap();
    assert!(runtime.processes.get(&fourth).is_none());
    runtime.spawn_process(id, 1, "sh", &[]).result.unwrap();
    let refused = runtime.commit_process(id, 1, Err("not found".to_owned())).result.unwrap_err();
    assert_eq!(refused.code, "process_spawn_failed");
    let unnamed = runtime.spawn_process(id, 1, "", &[]).result.unwrap_err();
    assert_eq!(unnamed.code, "invalid_process");
}

#[test]
fn finished_tasks_are_forgotten() {
    let mut host = host();
    let id = "task.extension";
    host.install(id);
    host.enable(id).unwrap();
    let owner = OwnerIdentity { pid: 5, generation: 6 };
    let held = capabilities(id, 1, owner);
    let scope = extension_scope(id, 1);
    let binding = host.runtime.start_task(id, 1, owner, &scope).unwrap();
    host.runtime.commit_task(id, 1, binding, Ok("task-9".to_owned())).result.unwrap();
    held.cancel_task(&host.runtime, "task-9").unwrap();
    let refused = ExtensionError::new("task_unavailable", "gone");
    assert_eq!(
        held.finish_task(&mut host.runtime, "task-9", Err(refused)).unwrap_err().code,
        "task_unavailable"
    );
    assert!(host.runtime.tasks.contains(&"task-9".to_owned()));
    held.finish_task(&mut host.runtime, "task-9", Ok(())).unwrap();
    assert!(!host.runtime.tasks.contains(&"task-9".to_owned()));
    assert!(held.cancel_task(&host.runtime, "task-9").is_err());
}

#[test]
fn listed_metadata_is_what_the_generation_published() {
    let mut host = host();
    let id = "meta.extension";
    host.install(id);
    host.enable(id).unwrap();
    let owner = OwnerIdentity { pid: 5, generation: 6 };
    let held = capabilities(id, 1, owner);
    let scope = extension_scope(id, 1);
    let provenance = Json::Object(vec![("extension_id".to_owned(), Json::Text(id.to_owned()))]);
    assert!(validate_metadata_provenance(id, 1, &provenance).is_ok());
    assert_eq!(
        validate_metadata_provenance("other", 1, &provenance).unwrap_err().code,
        "invalid_metadata_provenance"
    );
    let place = host
        .runtime
        .publish_metadata(id, 1, owner, &scope, "state", &None, &provenance)
        .unwrap();
    let kept = place.namespace.clone();
    host.runtime.commit_metadata(place, "state".to_owned(), "key".to_owned(), None);
    let record = |namespace: &str, key: &str| MetadataRecord {
        namespace: namespace.to_owned(),
        key: key.to_owned(),
        target: None,
        value: "1".to_owned(),
        expires_at_ms: None,
        provenance: "{}".to_owned(),
    };
    let list = held
        .metadata_list(&host.runtime, vec![record(&kept, "other"), record(&kept, "key")])
        .unwrap();
    assert_eq!(list.len(), 1);
    assert_eq!(list[0].namespace, "state");
    assert_eq!(list[0].key, "key");
}

#[test]
fn handlers_see_that_their_call_is_over() {
    let mut host = host();
    let id = "context.extension";
    host.install(id);
    host.enable(id).unwrap();
    let command = format!("{id}.echo");
    host.register_command(id, 1, &command).unwrap();
    let epoch = host.runtime.packages.get(&id.to_owned()).unwrap().epoch;
    let context = ExtensionCommandContext {
        invocation: CommandInvocation {
            command,
            arguments: vec!["a".to_owned()],
            caller: Caller::Cli,
            target: None,
            confirmation: None,
        },
        deadline: 100,
        work: WorkItem {
            generation: ExtensionGeneration { extension_id: id.to_owned(), generation: 1 },
            epoch,
            handler: 7,
        },
        owner: host.runtime.owner,
    };
    assert_eq!(context.deadline(), 100);
    assert!(context.check(&host.runtime, false, 99).is_ok());
    assert!(!context.is_cancelled(&host.runtime, false, 99));
    assert_eq!(context.check(&host.runtime, true, 99).unwrap_err().code, "cancelled");
    assert_eq!(context.check(&host.runtime, false, 100).unwrap_err().code, "deadline_exceeded");
    host.reload(id).unwrap();
    assert_eq!(context.check(&host.runtime, false, 99).unwrap_err().code, "cancelled");
}

#[test]
fn unsubscribing_forgets_the_subscription() {
    let mut host = host();
    let id = "event.extension";
    host.install(id);
    host.enable(id).unwrap();
    let topic = host.register_event(id, 1, "changed").unwrap();
    let owner = OwnerIdentity { pid: 5, generation: 6 };
    host.runtime.subscribe_event(id, 1, &topic, &extension_scope(id, 1)).unwrap();
    host.runtime.commit_subscription(id, 1, owner, "subscription-3").unwrap();
    assert!(host.runtime.subscriptions.contains(&"subscription-3".to_owned()));
    host.runtime.unsubscribe_event("subscription-3");
    assert!(!host.runtime.subscriptions.contains(&"subscription-3".to_owned()));
}

#[test]
fn scopes_are_those_of_enabled_packages() {
    let mut host = host();
    host.install("b.extension");
    host.install("a.extension");
    host.install("c.extension");
    host.enable("b.extension").unwrap();
    host.enable("a.extension").unwrap();
    assert_eq!(
        host.runtime.refresh_extension_scopes(),
        vec![extension_scope("a.extension", 1), extension_scope("b.extension", 1)]
    );
    assert!(host.runtime.has_package("c.extension"));
    assert!(!host.runtime.has_package("d.extension"));
}

#[test]
fn calls_that_cannot_be_queued_fail() {
    let code = |outcome: CommandOutcome| match outcome {
        CommandOutcome::Failed { code, .. } => code,
        other => format!("{other:?}"),
    };
    assert_eq!(code(queue_outcome(QueueRefusal::Full)), "extension_busy");
    assert_eq!(code(queue_outcome(QueueRefusal::Disconnected)), "extension_stopped");
}

#[test]
fn the_last_owner_shuts_the_host_down() {
    let mut owners = RuntimeOwners::new();
    owners.cloned(true);
    owners.cloned(false);
    assert_eq!(owners.count, 2);
    assert!(!owners.dropped(true));
    assert!(!owners.dropped(false));
    assert!(owners.dropped(true));
    assert_eq!(owners.count, 0);
}
