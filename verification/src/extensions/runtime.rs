//! The state of the extension host, and the checks that every operation begins with.

use vstd::prelude::*;
use super::command::{same_target, target_id, CommandTarget, OwnerIdentity, TargetId};
use super::error::ExtensionError;
use super::file_commit::{FileIdentity, FileSnapshot};
use super::ids::{extension_scope, is_package_id, scope_text, ExtensionGeneration, ExtensionPackageId};
use super::lifecycle::LifecyclePublicationState;
use super::output::ProcessOutput;
use crate::table::{Owned, Table, TableKey};
use crate::text::same_text;
use crate::text_set::TextSet;

verus! {

/// How many bytes a file, a stored value or an observation may take.
pub const EXTENSION_FILE_BYTES: usize = 524288;

/// How many failed cleanups are remembered.
pub const EXTENSION_CLEANUP_RETRY_LIMIT: usize = 256;

/// What a package says of itself.
#[derive(Clone, Debug, PartialEq, Eq)]
pub struct ExtensionPackageManifest {
    pub id: String,
    pub name: String,
    pub version: String,
    pub entrypoint: Option<String>,
    pub storage_namespace: Option<String>,
    pub default_enabled: bool,
}

/// An installed package.
#[derive(Debug)]
pub struct PackageState {
    pub manifest: ExtensionPackageManifest,
    pub generation: u64,
    pub enabled: bool,
    pub linked: bool,
    pub source: Option<String>,
    /// Whether the current generation was told to stop.
    pub cancelled: bool,
    /// How often the package got a new cancellation of its own; tells apart two spells of one
    /// generation.
    pub epoch: u64,
    pub commands: TextSet,
    pub events: TextSet,
}

/// A command that a generation registered. `handler` is the number under which the caller keeps the
/// handler.
#[derive(Debug)]
pub struct ExtensionCommandRecord {
    pub generation: ExtensionGeneration,
    pub epoch: u64,
    pub handler: u64,
}

/// A topic that a generation registered.
#[derive(Clone, Debug)]
pub struct ExtensionEventRegistration {
    pub topic: String,
    pub generation: ExtensionGeneration,
}

/// A subscription as its holder sees it.
#[derive(Clone, Debug)]
pub struct ExtensionSubscription {
    pub id: String,
    pub topic: String,
    pub scope: String,
    pub generation: ExtensionGeneration,
}

/// A subscription that a generation holds.
#[derive(Debug)]
pub struct SubscriptionRecord {
    pub owner: OwnerIdentity,
    pub generation: ExtensionGeneration,
}

/// What a resource belongs to: a generation, the process that holds it, and the scope it lives in.
#[derive(Debug)]
pub struct ExtensionResourceBinding {
    pub generation: ExtensionGeneration,
    pub owner: OwnerIdentity,
    pub scope: String,
}

/// What identifies a binding.
pub type BindingId = ((Seq<char>, u64), OwnerIdentity, Seq<char>);

/// A task that a generation started.
#[derive(Debug)]
pub struct TaskBinding {
    pub resource: ExtensionResourceBinding,
}

/// What identifies a metadata record: its binding, the namespace that the host keeps it under, its
/// key and its target.
#[derive(Debug)]
pub struct MetadataBindingKey {
    pub resource: ExtensionResourceBinding,
    pub namespace: String,
    pub key: String,
    pub target: Option<CommandTarget>,
}

/// A metadata record that a generation published.
#[derive(Debug)]
pub struct MetadataBinding {
    pub resource: ExtensionResourceBinding,
    pub namespace: String,
    pub key: String,
    pub target: Option<CommandTarget>,
}

/// What identifies a stored value.
#[derive(Debug)]
pub struct StorageBindingKey {
    pub resource: ExtensionResourceBinding,
    pub key: String,
}

/// A value that a generation stored, as JSON text.
#[derive(Debug)]
pub struct StorageRecord {
    pub generation: ExtensionGeneration,
    pub value: String,
}

/// One entry of a log.
#[derive(Clone, Debug, PartialEq, Eq)]
pub struct ExtensionLogEntry {
    pub timestamp_ms: u64,
    pub level: String,
    pub message: String,
    pub generation: u64,
}

/// The log of a generation.
#[derive(Debug)]
pub struct LogRecord {
    pub generation: ExtensionGeneration,
    pub entries: Vec<ExtensionLogEntry>,
}

/// What a generation observed of its own metadata, as JSON text.
#[derive(Debug)]
pub struct ObservationRecord {
    pub generation: ExtensionGeneration,
    pub metadata: String,
}

/// What the host shows an extension of itself, as JSON texts.
#[derive(Clone, Debug, PartialEq, Eq)]
pub struct HostObservation {
    pub topology: String,
    pub terminals: String,
    pub metadata: String,
}

/// How a surface is shown.
#[derive(Clone, Copy, Debug, PartialEq, Eq, Structural)]
pub enum SurfacePresentation {
    Modal,
    Floating,
    Docked,
    Sidebar,
    Status,
    Edge,
    NativeWindow,
}

/// A surface that an extension asks for; `payload` is JSON text.
#[derive(Clone, Debug, PartialEq, Eq)]
pub struct SurfaceSpec {
    pub id: String,
    pub title: String,
    pub presentation: SurfacePresentation,
    pub payload: String,
}

/// A surface of a generation.
#[derive(Debug)]
pub struct SurfaceRecord {
    pub spec: SurfaceSpec,
    pub generation: ExtensionGeneration,
}

/// A process that a generation started, and what it wrote.
#[derive(Debug)]
pub struct ProcessRecord {
    pub generation: ExtensionGeneration,
    pub output: ProcessOutput,
}

/// What a file action would do.
#[derive(Clone, Debug, PartialEq, Eq)]
pub struct FileTransactionPreview {
    pub path: String,
    pub existed: bool,
    pub before_bytes: usize,
    pub after_bytes: usize,
    pub changed: bool,
    pub destructive: bool,
}

/// Whether a file is written or removed.
#[derive(Clone, Copy, Debug, PartialEq, Eq, Structural)]
pub enum FileTransactionOperation {
    Write,
    Remove,
}

/// A file action that was prepared: what it is to do, and what the file was like. `root` is the
/// number under which the caller keeps the directory that `relative` starts from.
#[derive(Debug)]
pub struct FileTransaction {
    /// Which host prepared it.
    pub runtime: u64,
    pub extension: ExtensionPackageId,
    pub generation: u64,
    pub confirmation_id: u64,
    pub root: u64,
    pub relative: String,
    pub parent_identity: Option<FileIdentity>,
    pub snapshot: FileSnapshot,
    pub contents: Vec<u8>,
    pub operation: FileTransactionOperation,
    pub preview: FileTransactionPreview,
}

/// The permission to apply exactly the file actions that it was issued for.
#[derive(Clone, Debug, PartialEq, Eq)]
pub struct FileConfirmation {
    /// Opaque token of the host, good for one use.
    pub token: String,
    pub transaction_id: u64,
    pub extension: ExtensionPackageId,
    pub generation: u64,
    pub digest: String,
    pub preview: FileTransactionPreview,
    pub previews: Vec<FileTransactionPreview>,
}

/// A confirmation that was issued, with the file actions that it permits.
#[derive(Debug)]
pub struct FileConfirmationRecord {
    pub confirmation: FileConfirmation,
    pub transactions: Vec<FileTransaction>,
}

/// A thread that runs the scripts of a generation.
#[derive(Debug)]
pub struct LuaWorker {
    pub generation: ExtensionGeneration,
}

/// The extension host.
#[derive(Debug)]
pub struct ExtensionRuntime {
    /// Tells this host from others.
    pub instance: u64,
    pub owner: OwnerIdentity,
    pub shutdown: bool,
    pub packages: Table<String, PackageState>,
    pub commands: Table<String, ExtensionCommandRecord>,
    pub events: Table<String, ExtensionEventRegistration>,
    pub subscriptions: Table<String, SubscriptionRecord>,
    pub tasks: Table<String, TaskBinding>,
    pub surfaces: Table<String, SurfaceRecord>,
    pub processes: Table<String, ProcessRecord>,
    pub process_reservations: Table<ExtensionGeneration, usize>,
    pub logs: Table<ExtensionResourceBinding, LogRecord>,
    pub metadata: Table<MetadataBindingKey, MetadataBinding>,
    pub storage: Table<StorageBindingKey, StorageRecord>,
    pub observation_metadata: Table<ExtensionResourceBinding, ObservationRecord>,
    /// JSON texts of what is open and of the terminals.
    pub topology: String,
    pub terminals: String,
    pub file_confirmations: Table<String, FileConfirmationRecord>,
    pub next_file_confirmation: u64,
    pub next_process: u64,
    pub command_reservations: Table<String, ExtensionGeneration>,
    pub event_reservations: Table<String, ExtensionGeneration>,
    pub task_reservations: Table<String, ExtensionGeneration>,
    pub lifecycle: LifecyclePublicationState,
    pub cleanup_retries: Table<ExtensionGeneration, u8>,
    pub lua_workers: Table<String, LuaWorker>,
    pub storage_root: Option<String>,
    pub file_roots: Vec<String>,
    /// The longest name of a metadata namespace, in bytes.
    pub metadata_name_limit: usize,
    /// The longest payload of an event, in bytes.
    pub event_byte_limit: usize,
}

impl ExtensionGeneration {
    pub open spec fn pair(self) -> (Seq<char>, u64) {
        (self.extension_id@, self.generation)
    }

    /// A generation of a package.
    pub fn of(id: &str, generation: u64) -> (out: Self)
        ensures
            out.pair() == (id@, generation),
    {
        ExtensionGeneration { extension_id: id.to_owned(), generation }
    }

    /// A copy of this reference.
    pub fn copy(&self) -> (out: Self)
        ensures
            out == *self,
    {
        ExtensionGeneration { extension_id: self.extension_id.clone(), generation: self.generation }
    }

    /// Whether this is the given generation of the given package.
    pub fn is(&self, id: &str, generation: u64) -> (out: bool)
        ensures
            out == (self.pair() == (id@, generation)),
    {
        same_text(&self.extension_id, id) && self.generation == generation
    }
}

impl TableKey for ExtensionGeneration {
    type Id = (Seq<char>, u64);

    open spec fn id(&self) -> (Seq<char>, u64) {
        self.pair()
    }

    fn same(&self, other: &Self) -> (out: bool) {
        assert(other.id() == (other.extension_id@, other.generation));
        self.is(&other.extension_id, other.generation)
    }
}

impl Owned for ExtensionGeneration {
    open spec fn owner(&self) -> (Seq<char>, u64) {
        self.pair()
    }

    fn owned_by(&self, id: &str, generation: u64) -> (out: bool) {
        self.is(id, generation)
    }
}

impl ExtensionResourceBinding {
    pub open spec fn binding_id(self) -> BindingId {
        (self.generation.pair(), self.owner, self.scope@)
    }

    /// A copy of this binding.
    pub fn copy(&self) -> (out: Self)
        ensures
            out == *self,
    {
        ExtensionResourceBinding {
            generation: self.generation.copy(),
            owner: self.owner,
            scope: self.scope.clone(),
        }
    }
}

impl TableKey for ExtensionResourceBinding {
    type Id = BindingId;

    open spec fn id(&self) -> BindingId {
        self.binding_id()
    }

    fn same(&self, other: &Self) -> (out: bool) {
        assert(self.id() == (self.generation.id(), self.owner, self.scope@));
        assert(other.id() == (other.generation.id(), other.owner, other.scope@));
        self.generation.same(&other.generation) && self.owner == other.owner && same_text(
            &self.scope,
            &other.scope,
        )
    }
}

impl TableKey for MetadataBindingKey {
    type Id = (BindingId, Seq<char>, Seq<char>, Option<TargetId>);

    open spec fn id(&self) -> (BindingId, Seq<char>, Seq<char>, Option<TargetId>) {
        (self.resource.binding_id(), self.namespace@, self.key@, target_id(self.target))
    }

    fn same(&self, other: &Self) -> (out: bool) {
        assert(self.resource.id() == self.resource.binding_id());
        assert(other.resource.id() == other.resource.binding_id());
        self.resource.same(&other.resource) && same_text(&self.namespace, &other.namespace)
            && same_text(&self.key, &other.key) && same_target(&self.target, &other.target)
    }
}

impl TableKey for StorageBindingKey {
    type Id = (BindingId, Seq<char>);

    open spec fn id(&self) -> (BindingId, Seq<char>) {
        (self.resource.binding_id(), self.key@)
    }

    fn same(&self, other: &Self) -> (out: bool) {
        assert(self.resource.id() == self.resource.binding_id());
        assert(other.resource.id() == other.resource.binding_id());
        self.resource.same(&other.resource) && same_text(&self.key, &other.key)
    }
}

impl Owned for ExtensionCommandRecord {
    open spec fn owner(&self) -> (Seq<char>, u64) {
        self.generation.pair()
    }

    fn owned_by(&self, id: &str, generation: u64) -> (out: bool) {
        self.generation.is(id, generation)
    }
}

impl Owned for ExtensionEventRegistration {
    open spec fn owner(&self) -> (Seq<char>, u64) {
        self.generation.pair()
    }

    fn owned_by(&self, id: &str, generation: u64) -> (out: bool) {
        self.generation.is(id, generation)
    }
}

impl Owned for SubscriptionRecord {
    open spec fn owner(&self) -> (Seq<char>, u64) {
        self.generation.pair()
    }

    fn owned_by(&self, id: &str, generation: u64) -> (out: bool) {
        self.generation.is(id, generation)
    }
}

impl Owned for TaskBinding {
    open spec fn owner(&self) -> (Seq<char>, u64) {
        self.resource.generation.pair()
    }

    fn owned_by(&self, id: &str, generation: u64) -> (out: bool) {
        self.resource.generation.is(id, generation)
    }
}

impl Owned for MetadataBinding {
    open spec fn owner(&self) -> (Seq<char>, u64) {
        self.resource.generation.pair()
    }

    fn owned_by(&self, id: &str, generation: u64) -> (out: bool) {
        self.resource.generation.is(id, generation)
    }
}

impl Owned for StorageRecord {
    open spec fn owner(&self) -> (Seq<char>, u64) {
        self.generation.pair()
    }

    fn owned_by(&self, id: &str, generation: u64) -> (out: bool) {
        self.generation.is(id, generation)
    }
}

impl Owned for LogRecord {
    open spec fn owner(&self) -> (Seq<char>, u64) {
        self.generation.pair()
    }

    fn owned_by(&self, id: &str, generation: u64) -> (out: bool) {
        self.generation.is(id, generation)
    }
}

impl Owned for ObservationRecord {
    open spec fn owner(&self) -> (Seq<char>, u64) {
        self.generation.pair()
    }

    fn owned_by(&self, id: &str, generation: u64) -> (out: bool) {
        self.generation.is(id, generation)
    }
}

impl Owned for SurfaceRecord {
    open spec fn owner(&self) -> (Seq<char>, u64) {
        self.generation.pair()
    }

    fn owned_by(&self, id: &str, generation: u64) -> (out: bool) {
        self.generation.is(id, generation)
    }
}

impl Owned for ProcessRecord {
    open spec fn owner(&self) -> (Seq<char>, u64) {
        self.generation.pair()
    }

    fn owned_by(&self, id: &str, generation: u64) -> (out: bool) {
        self.generation.is(id, generation)
    }
}

impl Owned for LuaWorker {
    open spec fn owner(&self) -> (Seq<char>, u64) {
        self.generation.pair()
    }

    fn owned_by(&self, id: &str, generation: u64) -> (out: bool) {
        self.generation.is(id, generation)
    }
}

impl Owned for FileConfirmationRecord {
    open spec fn owner(&self) -> (Seq<char>, u64) {
        (self.confirmation.extension.0@, self.confirmation.generation)
    }

    fn owned_by(&self, id: &str, generation: u64) -> (out: bool) {
        same_text(&self.confirmation.extension.0, id) && self.confirmation.generation == generation
    }
}

impl PackageState {
    /// The sets of names are in order.
    pub open spec fn wf(&self) -> bool {
        self.commands.wf() && self.events.wf()
    }

    /// Whether a generation of the package may act.
    pub open spec fn runs(&self, generation: u64) -> bool {
        self.enabled && self.generation == generation && !self.cancelled
    }
}

/// Why a generation of a package may not act, as code and message; `None` where it may.
pub open spec fn state_refusal(
    packages: Map<Seq<char>, PackageState>,
    id: Seq<char>,
    generation: u64,
) -> Option<(Seq<char>, Seq<char>)> {
    if !packages.contains_key(id) {
        Some(("unknown_extension"@, "extension is not installed"@))
    } else if !packages[id].enabled {
        Some(("extension_disabled"@, "extension is disabled"@))
    } else if !packages[id].runs(generation) {
        Some(("stale_generation"@, "extension generation is stale"@))
    } else {
        None
    }
}

/// Whether a result is the refusal that a check gives, or no refusal where it gives none.
pub open spec fn refused_by<T>(
    result: Result<T, ExtensionError>,
    refusal: Option<(Seq<char>, Seq<char>)>,
) -> bool {
    match refusal {
        Some((code, message)) => result matches Err(e) && e.is(code, message),
        None => true,
    }
}

/// A copy of an optional text.
pub fn copy_text(value: &Option<String>) -> (out: Option<String>)
    ensures
        out == *value,
{
    match value {
        Some(s) => Some(s.clone()),
        None => None,
    }
}

/// A text as a key.
pub fn key_of(text: &str) -> (out: String)
    ensures
        out@ == text@,
        out.id() == text@,
{
    text.to_owned()
}

impl ExtensionRuntime {
    /// Every table holds each key once, every set is in order, the queue is within its limits, what a
    /// table holds is what its key says, and what processes wrote is within the limits.
    pub open spec fn wf(&self) -> bool {
        &&& self.packages.wf()
        &&& self.commands.wf()
        &&& self.events.wf()
        &&& self.subscriptions.wf()
        &&& self.tasks.wf()
        &&& self.surfaces.wf()
        &&& self.processes.wf()
        &&& self.process_reservations.wf()
        &&& self.logs.wf()
        &&& self.metadata.wf()
        &&& self.storage.wf()
        &&& self.observation_metadata.wf()
        &&& self.file_confirmations.wf()
        &&& self.command_reservations.wf()
        &&& self.event_reservations.wf()
        &&& self.task_reservations.wf()
        &&& self.lifecycle.wf()
        &&& self.cleanup_retries.wf()
        &&& self.lua_workers.wf()
        &&& forall|id: Seq<char>| #[trigger]
            self.packages.map().contains_key(id) ==> self.packages.map()[id].wf()
                && self.packages.map()[id].manifest.id@ == id
        &&& forall|id: Seq<char>| #[trigger]
            self.processes.map().contains_key(id) ==> self.processes.map()[id].output.wf()
        &&& self.cleanup_retries.map().len() <= EXTENSION_CLEANUP_RETRY_LIMIT
    }

    /// Whether a generation of a package may act.
    pub open spec fn active(&self, id: Seq<char>, generation: u64) -> bool {
        self.packages.map().contains_key(id) && self.packages.map()[id].runs(generation)
    }

    /// Why a generation may not act now; `None` where it may.
    pub open spec fn refusal(&self, id: Seq<char>, generation: u64) -> Option<
        (Seq<char>, Seq<char>),
    > {
        if self.shutdown {
            Some(("extension_stopped"@, "extension runtime has been shut down"@))
        } else {
            state_refusal(self.packages.map(), id, generation)
        }
    }

    /// Why a generation may not hold resources now; `None` where it may.
    pub open spec fn binding_refusal(&self, id: Seq<char>, generation: u64) -> Option<
        (Seq<char>, Seq<char>),
    > {
        if !is_package_id(id) {
            Some(("invalid_extension_id"@, "invalid extension package id"@))
        } else {
            self.refusal(id, generation)
        }
    }

    /// What identifies the resources of a generation that a process holds.
    pub open spec fn binding_of(id: Seq<char>, generation: u64, owner: OwnerIdentity) -> BindingId {
        ((id, generation), owner, scope_text(id, generation))
    }

    /// A host without packages.
    pub fn new(
        instance: u64,
        owner: OwnerIdentity,
        metadata_name_limit: usize,
        event_byte_limit: usize,
    ) -> (out: Self)
        ensures
            out.wf(),
            !out.shutdown,
            out.instance == instance,
            out.owner == owner,
            out.metadata_name_limit == metadata_name_limit,
            out.event_byte_limit == event_byte_limit,
            out.packages.map() == Map::<Seq<char>, PackageState>::empty(),
            out.commands.map() == Map::<Seq<char>, ExtensionCommandRecord>::empty(),
            out.events.map() == Map::<Seq<char>, ExtensionEventRegistration>::empty(),
            out.subscriptions.map() == Map::<Seq<char>, SubscriptionRecord>::empty(),
            out.tasks.map() == Map::<Seq<char>, TaskBinding>::empty(),
            out.surfaces.map() == Map::<Seq<char>, SurfaceRecord>::empty(),
            out.processes.map() == Map::<Seq<char>, ProcessRecord>::empty(),
            out.process_reservations.map() == Map::<(Seq<char>, u64), usize>::empty(),
            out.logs.map() == Map::<BindingId, LogRecord>::empty(),
            out.storage.map() == Map::<(BindingId, Seq<char>), StorageRecord>::empty(),
            out.observation_metadata.map() == Map::<BindingId, ObservationRecord>::empty(),
            out.file_confirmations.map() == Map::<Seq<char>, FileConfirmationRecord>::empty(),
            out.command_reservations.map() == Map::<Seq<char>, ExtensionGeneration>::empty(),
            out.event_reservations.map() == Map::<Seq<char>, ExtensionGeneration>::empty(),
            out.task_reservations.map() == Map::<Seq<char>, ExtensionGeneration>::empty(),
            out.cleanup_retries.map() == Map::<(Seq<char>, u64), u8>::empty(),
            out.lua_workers.map() == Map::<Seq<char>, LuaWorker>::empty(),
            out.metadata.map().dom() == Set::<
                (BindingId, Seq<char>, Seq<char>, Option<TargetId>),
            >::empty(),
            out.lifecycle.pending@.len() == 0,
            out.lifecycle.published@.len() == 0,
            out.next_file_confirmation == 1,
            out.next_process == 1,
            out.storage_root is None,
            out.file_roots@.len() == 0,
            out.topology@ == "null"@,
            out.terminals@ == "null"@,
    {
        let out = ExtensionRuntime {
            instance,
            owner,
            shutdown: false,
            packages: Table::new(),
            commands: Table::new(),
            events: Table::new(),
            subscriptions: Table::new(),
            tasks: Table::new(),
            surfaces: Table::new(),
            processes: Table::new(),
            process_reservations: Table::new(),
            logs: Table::new(),
            metadata: Table::new(),
            storage: Table::new(),
            observation_metadata: Table::new(),
            topology: "null".to_owned(),
            terminals: "null".to_owned(),
            file_confirmations: Table::new(),
            next_file_confirmation: 1,
            next_process: 1,
            command_reservations: Table::new(),
            event_reservations: Table::new(),
            task_reservations: Table::new(),
            lifecycle: LifecyclePublicationState::new(),
            cleanup_retries: Table::new(),
            lua_workers: Table::new(),
            storage_root: None,
            file_roots: Vec::new(),
            metadata_name_limit,
            event_byte_limit,
        };
        out
    }

    /// Refuses work once the host was shut down.
    pub fn ensure_running(&self) -> (out: Result<(), ExtensionError>)
        ensures
            out is Ok <==> !self.shutdown,
            out matches Err(e) ==> e.is(
                "extension_stopped"@,
                "extension runtime has been shut down"@,
            ),
    {
        if self.shutdown {
            Err(ExtensionError::new("extension_stopped", "extension runtime has been shut down"))
        } else {
            Ok(())
        }
    }

    /// Refuses a generation that is not the running one of an installed, enabled package.
    pub fn validate_package_state(&self, id: &str, generation: u64) -> (out: Result<
        (),
        ExtensionError,
    >)
        requires
            self.packages.wf(),
        ensures
            out is Ok <==> self.active(id@, generation),
            out is Ok <==> state_refusal(self.packages.map(), id@, generation) is None,
            refused_by(out, state_refusal(self.packages.map(), id@, generation)),
    {
        let key = key_of(id);
        match self.packages.get(&key) {
            None => Err(ExtensionError::new("unknown_extension", "extension is not installed")),
            Some(package) => {
                if !package.enabled {
                    Err(ExtensionError::new("extension_disabled", "extension is disabled"))
                } else if package.generation != generation || package.cancelled {
                    Err(ExtensionError::new("stale_generation", "extension generation is stale"))
                } else {
                    Ok(())
                }
            },
        }
    }

    /// Refuses a generation that may not act now; gives the package's epoch where it may.
    pub fn package_generation(&self, id: &str, generation: u64) -> (out: Result<
        u64,
        ExtensionError,
    >)
        requires
            self.packages.wf(),
        ensures
            out is Ok <==> self.refusal(id@, generation) is None,
            refused_by(out, self.refusal(id@, generation)),
            out matches Ok(epoch) ==> self.active(id@, generation) && epoch
                == self.packages.map()[id@].epoch,
    {
        if self.shutdown {
            return Err(
                ExtensionError::new("extension_stopped", "extension runtime has been shut down"),
            );
        }
        match self.validate_package_state(id, generation) {
            Err(error) => Err(error),
            Ok(()) => {
                let key = key_of(id);
                match self.packages.get(&key) {
                    Some(package) => Ok(package.epoch),
                    None => Err(
                        ExtensionError::new("unknown_extension", "extension is not installed"),
                    ),
                }
            },
        }
    }

    /// Whether a generation is enabled and was not told to stop.
    pub fn generation_is_active(&self, id: &str, generation: u64) -> (out: bool)
        requires
            self.packages.wf(),
        ensures
            out == (!self.shutdown && self.active(id@, generation)),
    {
        self.package_generation(id, generation).is_ok()
    }

    /// What the resources of a generation are bound to.
    pub fn resource_binding(&self, id: &str, generation: u64, owner: OwnerIdentity) -> (out: Result<
        ExtensionResourceBinding,
        ExtensionError,
    >)
        requires
            self.packages.wf(),
        ensures
            out is Ok <==> self.binding_refusal(id@, generation) is None,
            refused_by(out, self.binding_refusal(id@, generation)),
            out matches Ok(binding) ==> {
                &&& binding.binding_id() == Self::binding_of(id@, generation, owner)
                &&& binding.id() == Self::binding_of(id@, generation, owner)
                &&& self.active(id@, generation)
                &&& !self.shutdown
            },
    {
        match ExtensionPackageId::new(id) {
            Err(error) => Err(error),
            Ok(_) => match self.package_generation(id, generation) {
                Err(error) => Err(error),
                Ok(_) => Ok(
                    ExtensionResourceBinding {
                        generation: ExtensionGeneration::of(id, generation),
                        owner,
                        scope: extension_scope(id, generation),
                    },
                ),
            },
        }
    }
}

}
