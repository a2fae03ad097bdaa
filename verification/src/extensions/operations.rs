//! Enabling, disabling, reloading and loading a package.
//!
//! Each is a sequence of steps in the host and of actions outside it. [`Operation`] says which action
//! comes next, the caller performs it and hands back an [`OperationEvent`].

use vstd::prelude::*;
use super::error::ExtensionError;
use super::lifecycle::{pending_ids, LifecyclePublication, EXTENSION_LIFECYCLE_PENDING_LIMIT};
use super::runtime::{key_of, ExtensionRuntime, PackageState};
use crate::table::TableKey;

verus! {

/// What is done to a package.
#[derive(Clone, Copy, Debug, PartialEq, Eq, Structural)]
pub enum OperationKind {
    Enable,
    Disable,
    Reload,
    Load,
}

/// What an operation waits for.
#[derive(Clone, Copy, Debug, PartialEq, Eq, Structural)]
pub enum OperationPhase {
    /// The waiting publications are to be announced.
    Flush,
    /// The package's new state is to be saved.
    Persist,
    /// The package's old state is to be saved again.
    PersistBack,
    /// The package's scripts are to be found and read.
    ReadSource,
    /// The old generation is to be cleaned up.
    CleanUp,
    /// The package is to be loaded.
    Load,
    /// The package's scripts are to be run.
    Register,
    /// The change is to be announced.
    Publish,
    /// What was loaded is to be cleaned up again.
    Undo,
    Finished,
}

/// What a change is announced as.
#[derive(Clone, Copy, Debug, PartialEq, Eq, Structural)]
pub enum Announcement {
    EnabledPendingSource,
    Disabled,
    ReloadedPendingSource,
    Loaded,
    Reloaded,
}

/// What came of an action.
#[derive(Debug)]
pub struct OperationEvent {
    pub result: Result<(), ExtensionError>,
}

/// An operation on a package.
#[derive(Debug)]
pub struct Operation {
    pub kind: OperationKind,
    pub id: String,
    pub phase: OperationPhase,
    /// The generation that the current action is about.
    pub generation: u64,
    pub announcement: Announcement,
    /// What went wrong on the way, of an operation that goes on all the same.
    pub trouble: Option<ExtensionError>,
    /// What the operation failed with, once it is finished.
    pub failure: Option<ExtensionError>,
}

/// The name of an announcement.
pub open spec fn announcement_text(announcement: Announcement) -> Seq<char> {
    match announcement {
        Announcement::EnabledPendingSource => "enabled_pending_source"@,
        Announcement::Disabled => "disabled"@,
        Announcement::ReloadedPendingSource => "reloaded_pending_source"@,
        Announcement::Loaded => "loaded"@,
        Announcement::Reloaded => "reloaded"@,
    }
}

/// The name of an announcement.
pub fn announcement_name(announcement: Announcement) -> (out: &'static str)
    ensures
        out@ == announcement_text(announcement),
{
    match announcement {
        Announcement::EnabledPendingSource => "enabled_pending_source",
        Announcement::Disabled => "disabled",
        Announcement::ReloadedPendingSource => "reloaded_pending_source",
        Announcement::Loaded => "loaded",
        Announcement::Reloaded => "reloaded",
    }
}

/// The number after an epoch.
pub open spec fn next_epoch(epoch: u64) -> u64 {
    if epoch == u64::MAX {
        0
    } else {
        (epoch + 1) as u64
    }
}

impl Operation {
    /// This operation in another phase.
    pub open spec fn at(self, phase: OperationPhase) -> Self {
        Operation { phase, ..self }
    }

    /// This operation about to announce something of a generation.
    pub open spec fn announcing(self, generation: u64, announcement: Announcement) -> Self {
        Operation { phase: OperationPhase::Publish, generation, announcement, ..self }
    }

    /// This operation, finished.
    pub open spec fn done(self, failure: Option<ExtensionError>) -> Self {
        Operation { phase: OperationPhase::Finished, failure, ..self }
    }

    /// Whether `out` is this operation, failed with a code and a message.
    pub open spec fn failed(self, out: Self, code: Seq<char>, message: Seq<char>) -> bool {
        &&& out == self.done(out.failure)
        &&& out.failure matches Some(e) && e.is(code, message)
    }

    fn go(self, phase: OperationPhase) -> (out: Self)
        ensures
            out == self.at(phase),
    {
        let mut next = self;
        next.phase = phase;
        next
    }

    fn announce(self, generation: u64, announcement: Announcement) -> (out: Self)
        ensures
            out == self.announcing(generation, announcement),
    {
        let mut next = self;
        next.phase = OperationPhase::Publish;
        next.generation = generation;
        next.announcement = announcement;
        next
    }

    fn end(self, failure: Option<ExtensionError>) -> (out: Self)
        ensures
            out == self.done(failure),
    {
        let mut next = self;
        next.phase = OperationPhase::Finished;
        next.failure = failure;
        next
    }

    fn fail(self, code: &str, message: &str) -> (out: Self)
        ensures
            self.failed(out, code@, message@),
    {
        let error = ExtensionError::new(code, message);
        self.end(Some(error))
    }
}

/// The failure in a result.
pub open spec fn failure_of(result: Result<(), ExtensionError>) -> Option<ExtensionError> {
    match result {
        Ok(_) => None,
        Err(error) => Some(error),
    }
}

fn take_failure(result: Result<(), ExtensionError>) -> (out: Option<ExtensionError>)
    ensures
        out == failure_of(result),
{
    match result {
        Ok(()) => None,
        Err(error) => Some(error),
    }
}

/// The first of two failures.
pub open spec fn first_of(a: Option<ExtensionError>, b: Option<ExtensionError>) -> Option<
    ExtensionError,
> {
    if a is Some {
        a
    } else {
        b
    }
}

fn take_first(a: Option<ExtensionError>, b: Option<ExtensionError>) -> (out: Option<ExtensionError>)
    ensures
        out == first_of(a, b),
{
    if a.is_some() {
        a
    } else {
        b
    }
}

impl ExtensionRuntime {
    /// This host with another state of one package.
    pub open spec fn package_set(
        &self,
        after: ExtensionRuntime,
        id: Seq<char>,
        package: PackageState,
    ) -> bool {
        &&& after == (ExtensionRuntime { packages: after.packages, ..*self })
        &&& after.packages.map() == self.packages.map().insert(id, package)
    }

    fn set_package(
        &mut self,
        id: &str,
        enabled: bool,
        cancelled: bool,
        generation: u64,
        renew: bool,
    )
        requires
            old(self).wf(),
            old(self).packages.map().contains_key(id@),
        ensures
            final(self).wf(),
            old(self).package_set(
                *final(self),
                id@,
                PackageState {
                    enabled,
                    cancelled,
                    generation,
                    epoch: if renew {
                        next_epoch(old(self).packages.map()[id@].epoch)
                    } else {
                        old(self).packages.map()[id@].epoch
                    },
                    ..old(self).packages.map()[id@]
                },
            ),
    {
        let key = key_of(id);
        match self.packages.remove(&key) {
            None => {},
            Some(package) => {
                let ghost before = package;
                let mut package = package;
                package.enabled = enabled;
                package.cancelled = cancelled;
                package.generation = generation;
                if renew {
                    package.epoch = package.epoch.wrapping_add(1);
                }
                self.packages.insert(key, package);
                proof {
                    let map = old(self).packages.map();
                    assert(self.packages.map() =~= map.insert(id@, package));
                }
            },
        }
    }

    /// Whether an operation begins as the host says.
    pub open spec fn begins(&self, kind: OperationKind, id: Seq<char>, out: Operation) -> bool {
        let packages = self.packages.map();
        &&& out.kind == kind
        &&& out.id@ == id
        &&& out.trouble is None
        &&& match kind {
            OperationKind::Enable | OperationKind::Reload => if self.awaits_cleanup(id) {
                out.phase is Finished && (out.failure matches Some(e) && e.is(
                    "cleanup_pending"@,
                    "extension resources are awaiting authoritative cleanup"@,
                ))
            } else {
                out.phase is Flush && out.failure is None
            },
            OperationKind::Disable => out.phase is Flush && out.failure is None,
            OperationKind::Load => if !packages.contains_key(id) {
                out.phase is Finished && (out.failure matches Some(e) && e.is(
                    "unknown_extension"@,
                    "extension is not installed"@,
                ))
            } else if !packages[id].enabled {
                out.phase is Finished && (out.failure matches Some(e) && e.is(
                    "extension_disabled"@,
                    "extension is disabled"@,
                ))
            } else if self.has_worker(id, packages[id].generation) {
                out.phase is Finished && out.failure is None
            } else if !packages[id].linked {
                out.phase is Finished && (out.failure matches Some(e) && e.is(
                    "extension_unlinked"@,
                    "extension source is not linked"@,
                ))
            } else if packages[id].source is None {
                out.phase is Finished && (out.failure matches Some(e) && e.is(
                    "extension_source_missing"@,
                    "extension source is not linked"@,
                ))
            } else {
                out.phase is ReadSource && out.failure is None && out.generation
                    == packages[id].generation
            },
        }
    }

    /// Begins to enable a package.
    pub fn enable(&self, id: &str) -> (out: Operation)
        requires
            self.wf(),
        ensures
            self.begins(OperationKind::Enable, id@, out),
    {
        self.begin(OperationKind::Enable, id)
    }

    /// Begins to disable a package.
    pub fn disable(&self, id: &str) -> (out: Operation)
        requires
            self.wf(),
        ensures
            self.begins(OperationKind::Disable, id@, out),
    {
        self.begin(OperationKind::Disable, id)
    }

    /// Begins to replace the generation of a package by the next.
    pub fn reload(&self, id: &str) -> (out: Operation)
        requires
            self.wf(),
        ensures
            self.begins(OperationKind::Reload, id@, out),
    {
        self.begin(OperationKind::Reload, id)
    }

    /// Begins to load the scripts of a package from where it is linked.
    pub fn load_linked_package(&self, id: &str) -> (out: Operation)
        requires
            self.wf(),
        ensures
            self.begins(OperationKind::Load, id@, out),
    {
        self.begin(OperationKind::Load, id)
    }

    /// Begins an operation on a package. The caller has tried the failed cleanups again.
    pub fn begin(&self, kind: OperationKind, id: &str) -> (out: Operation)
        requires
            self.wf(),
        ensures
            self.begins(kind, id@, out),
    {
        let fresh = Operation {
            kind,
            id: id.to_owned(),
            phase: OperationPhase::Flush,
            generation: 0,
            announcement: Announcement::Loaded,
            trouble: None,
            failure: None,
        };
        match kind {
            OperationKind::Disable => fresh,
            OperationKind::Enable | OperationKind::Reload => if self.cleanup_pending(id) {
                fresh.fail(
                    "cleanup_pending",
                    "extension resources are awaiting authoritative cleanup",
                )
            } else {
                fresh
            },
            OperationKind::Load => {
                let key = key_of(id);
                match self.packages.get(&key) {
                    None => fresh.fail("unknown_extension", "extension is not installed"),
                    Some(package) => if !package.enabled {
                        fresh.fail("extension_disabled", "extension is disabled")
                    } else if self.generation_has_worker(id, package.generation) {
                        fresh.end(None)
                    } else if !package.linked {
                        fresh.fail("extension_unlinked", "extension source is not linked")
                    } else if package.source.is_none() {
                        fresh.fail("extension_source_missing", "extension source is not linked")
                    } else {
                        let mut next = fresh;
                        next.generation = package.generation;
                        next.phase = OperationPhase::ReadSource;
                        next
                    },
                }
            },
        }
    }

    /// How many publications an operation may add to the queue.
    pub open spec fn room_needed(kind: OperationKind) -> nat {
        if kind is Reload {
            2
        } else {
            1
        }
    }

    /// What follows the announcement of the waiting publications.
    pub open spec fn flushed(&self, operation: Operation, out: Operation) -> bool {
        let id = operation.id@;
        let packages = self.packages.map();
        let package = packages[id];
        let noted = Operation { generation: package.generation, ..operation };
        if self.lifecycle.pending@.len() + Self::room_needed(operation.kind)
            > EXTENSION_LIFECYCLE_PENDING_LIMIT {
            operation.failed(
                out,
                "lifecycle_backpressure"@,
                "lifecycle publication retry queue is full"@,
            )
        } else if !packages.contains_key(id) {
            operation.failed(out, "unknown_extension"@, "extension is not installed"@)
        } else {
            match operation.kind {
                OperationKind::Enable => out == noted.at(OperationPhase::Persist),
                OperationKind::Disable => if package.enabled && !self.retry_fits(
                    id,
                    package.generation,
                ) {
                    noted.failed(
                        out,
                        "cleanup_retry_full"@,
                        "extension cleanup retry capacity is exhausted"@,
                    )
                } else {
                    out == noted.at(OperationPhase::Persist)
                },
                OperationKind::Reload => if package.enabled && package.linked {
                    if package.source is None {
                        noted.failed(
                            out,
                            "extension_source_missing"@,
                            "extension source is not linked"@,
                        )
                    } else {
                        out == noted.at(OperationPhase::ReadSource)
                    }
                } else {
                    self.retirable(noted, out)
                },
                OperationKind::Load => out == operation,
            }
        }
    }

    /// Whether `out` is what a reload comes to when its scripts were read: the old generation is
    /// retired, unless that cannot be.
    pub open spec fn retirable(&self, operation: Operation, out: Operation) -> bool {
        if operation.generation == u64::MAX {
            operation.failed(out, "generation_exhausted"@, "extension generation exhausted"@)
        } else if !self.retry_fits(operation.id@, operation.generation) {
            operation.failed(
                out,
                "cleanup_retry_full"@,
                "extension cleanup retry capacity is exhausted"@,
            )
        } else {
            out == operation.at(OperationPhase::CleanUp)
        }
    }

    /// The state of a package that was told to stop.
    pub open spec fn stopped(package: PackageState) -> PackageState {
        PackageState { cancelled: true, ..package }
    }

    fn flush_done(&mut self, operation: Operation) -> (out: Operation)
        requires
            old(self).wf(),
            operation.phase is Flush,
        ensures
            final(self).wf(),
            old(self).flushed(operation, out),
            out.phase is CleanUp ==> old(self).package_set(
                *final(self),
                operation.id@,
                Self::stopped(old(self).packages.map()[operation.id@]),
            ),
            !(out.phase is CleanUp) ==> *final(self) == *old(self),
    {
        let needed: usize = match operation.kind {
            OperationKind::Reload => 2,
            _ => 1,
        };
        match self.lifecycle.ensure_capacity(needed) {
            Err(_) => {
                return operation.fail(
                    "lifecycle_backpressure",
                    "lifecycle publication retry queue is full",
                );
            },
            Ok(()) => {},
        }
        let key = key_of(&operation.id);
        let (generation, enabled, linked, sourced) = match self.packages.get(&key) {
            None => {
                return operation.fail("unknown_extension", "extension is not installed");
            },
            Some(package) => (
                package.generation,
                package.enabled,
                package.linked,
                package.source.is_some(),
            ),
        };
        match operation.kind {
            OperationKind::Load => {
                return operation;
            },
            _ => {},
        }
        let mut noted = operation;
        noted.generation = generation;
        match noted.kind {
            OperationKind::Enable => noted.go(OperationPhase::Persist),
            OperationKind::Disable => {
                if enabled && self.ensure_cleanup_retry_capacity(&noted.id, generation).is_err() {
                    return noted.fail(
                        "cleanup_retry_full",
                        "extension cleanup retry capacity is exhausted",
                    );
                }
                noted.go(OperationPhase::Persist)
            },
            OperationKind::Reload => {
                if enabled && linked {
                    if !sourced {
                        return noted.fail(
                            "extension_source_missing",
                            "extension source is not linked",
                        );
                    }
                    noted.go(OperationPhase::ReadSource)
                } else {
                    self.retire(noted)
                }
            },
            OperationKind::Load => noted,
        }
    }

    fn retire(&mut self, operation: Operation) -> (out: Operation)
        requires
            old(self).wf(),
            old(self).packages.map().contains_key(operation.id@),
            !(operation.phase is CleanUp),
        ensures
            final(self).wf(),
            old(self).retirable(operation, out),
            out.phase is CleanUp ==> old(self).package_set(
                *final(self),
                operation.id@,
                Self::stopped(old(self).packages.map()[operation.id@]),
            ),
            !(out.phase is CleanUp) ==> *final(self) == *old(self),
    {
        if operation.generation == u64::MAX {
            return operation.fail("generation_exhausted", "extension generation exhausted");
        }
        if self.ensure_cleanup_retry_capacity(&operation.id, operation.generation).is_err() {
            return operation.fail(
                "cleanup_retry_full",
                "extension cleanup retry capacity is exhausted",
            );
        }
        let key = key_of(&operation.id);
        let (enabled, generation) = match self.packages.get(&key) {
            Some(package) => (package.enabled, package.generation),
            None => (false, 0),
        };
        self.set_package(&operation.id, enabled, true, generation, false);
        operation.go(OperationPhase::CleanUp)
    }

    /// Whether a publication of an operation waits in the queue.
    pub open spec fn announcement_waits(&self, operation: Operation) -> bool {
        pending_ids(self.lifecycle.pending@).contains(
            (operation.id@, operation.generation, announcement_text(operation.announcement)),
        )
    }

    /// The host and the operation after an event.
    pub open spec fn advanced(
        &self,
        after: ExtensionRuntime,
        operation: Operation,
        event: OperationEvent,
        out: Operation,
    ) -> bool {
        let id = operation.id@;
        let packages = self.packages.map();
        let package = packages[id];
        let failure = failure_of(event.result);
        let missing = !packages.contains_key(id) && !(operation.phase is Flush)
            && !(operation.phase is Finished);
        if missing {
            after == *self && operation.failed(
                out,
                "unknown_extension"@,
                "extension is not installed"@,
            )
        } else {
            match operation.phase {
                OperationPhase::Flush => {
                    &&& self.flushed(operation, out)
                    &&& if out.phase is CleanUp {
                        self.package_set(after, id, Self::stopped(package))
                    } else {
                        after == *self
                    }
                },
                OperationPhase::Persist => if failure is Some {
                    after == *self && out == operation.done(failure)
                } else if operation.kind is Enable {
                    if package.enabled {
                        after == *self && out == operation.done(None)
                    } else {
                        &&& self.package_set(
                            after,
                            id,
                            PackageState {
                                enabled: true,
                                cancelled: false,
                                epoch: next_epoch(package.epoch),
                                ..package
                            },
                        )
                        &&& out == (if package.linked {
                            operation.at(OperationPhase::Load)
                        } else {
                            operation.announcing(
                                package.generation,
                                Announcement::EnabledPendingSource,
                            )
                        })
                    }
                } else if !package.enabled {
                    after == *self && out == operation.done(None)
                } else {
                    &&& self.package_set(after, id, Self::stopped(package))
                    &&& out == operation.at(OperationPhase::CleanUp)
                },
                OperationPhase::ReadSource => if failure is Some {
                    after == *self && out == operation.done(failure)
                } else if operation.kind is Reload {
                    &&& self.retirable(operation, out)
                    &&& if out.phase is CleanUp {
                        self.package_set(after, id, Self::stopped(package))
                    } else {
                        after == *self
                    }
                } else if self.lifecycle.pending@.len() + 1 > EXTENSION_LIFECYCLE_PENDING_LIMIT {
                    after == *self && operation.failed(
                        out,
                        "lifecycle_backpressure"@,
                        "lifecycle publication retry queue is full"@,
                    )
                } else {
                    after == *self && out == operation.at(OperationPhase::Register)
                },
                OperationPhase::CleanUp => if operation.kind is Reload {
                    &&& self.package_set(
                        after,
                        id,
                        PackageState {
                            generation: (operation.generation + 1) as u64,
                            cancelled: false,
                            epoch: next_epoch(package.epoch),
                            ..package
                        },
                    )
                    &&& out == (if failure is Some {
                        operation.done(failure)
                    } else if package.enabled && package.linked {
                        operation.at(OperationPhase::Load)
                    } else if package.enabled {
                        operation.announcing(
                            (operation.generation + 1) as u64,
                            Announcement::ReloadedPendingSource,
                        )
                    } else {
                        operation.done(None)
                    })
                } else {
                    &&& self.package_set(after, id, PackageState { enabled: false, ..package })
                    &&& out == (Operation { trouble: failure, ..operation }).announcing(
                        operation.generation,
                        Announcement::Disabled,
                    )
                },
                OperationPhase::Load => if failure is Some && operation.kind is Enable {
                    after == *self && out == (Operation { trouble: failure, ..operation }).at(
                        OperationPhase::PersistBack,
                    )
                } else {
                    after == *self && out == operation.done(failure)
                },
                OperationPhase::PersistBack => {
                    &&& self.package_set(
                        after,
                        id,
                        PackageState { enabled: false, cancelled: true, ..package },
                    )
                    &&& out == (Operation { trouble: None, ..operation }).done(
                        first_of(failure, operation.trouble),
                    )
                },
                OperationPhase::Register => if failure is Some {
                    after == *self && out == operation.done(failure)
                } else {
                    after == *self && out == operation.announcing(
                        operation.generation,
                        if operation.generation == 1 {
                            Announcement::Loaded
                        } else {
                            Announcement::Reloaded
                        },
                    )
                },
                OperationPhase::Publish => if operation.kind is Load {
                    if failure is Some {
                        &&& after == (ExtensionRuntime { lifecycle: after.lifecycle, ..*self })
                        &&& after.lifecycle.published == self.lifecycle.published
                        &&& after.lifecycle.pending@ == self.lifecycle.pending@.filter(
                            |p: LifecyclePublication|
                                p.id() != (
                                    id,
                                    operation.generation,
                                    announcement_text(operation.announcement),
                                ),
                        )
                        &&& out == (Operation { trouble: failure, ..operation }).at(
                            OperationPhase::Undo,
                        )
                    } else {
                        after == *self && out == operation.done(None)
                    }
                } else if failure is Some && !self.announcement_waits(operation) {
                    after == *self && out == (Operation { trouble: None, ..operation }).done(
                        failure,
                    )
                } else {
                    after == *self && out == (Operation { trouble: None, ..operation }).done(
                        operation.trouble,
                    )
                },
                OperationPhase::Undo => after == *self && out == (Operation {
                    trouble: None,
                    ..operation
                }).done(first_of(failure, operation.trouble)),
                OperationPhase::Finished => after == *self && out == operation,
            }
        }
    }

    fn persist_done(&mut self, operation: Operation, failure: Option<ExtensionError>) -> (out:
        Operation)
        requires
            old(self).wf(),
            operation.phase is Persist,
            old(self).packages.map().contains_key(operation.id@),
        ensures
            final(self).wf(),
            forall|event: OperationEvent| failure_of(event.result) == failure ==> #[trigger] old(
                self,
            ).advanced(*final(self), operation, event, out),
    {
        if failure.is_some() {
            return operation.end(failure);
        }
        let key = key_of(&operation.id);
        let (enabled, linked, generation) = match self.packages.get(&key) {
            Some(package) => (package.enabled, package.linked, package.generation),
            None => (false, false, 0),
        };
        match operation.kind {
            OperationKind::Enable => {
                if enabled {
                    return operation.end(None);
                }
                self.set_package(&operation.id, true, false, generation, true);
                if linked {
                    operation.go(OperationPhase::Load)
                } else {
                    operation.announce(generation, Announcement::EnabledPendingSource)
                }
            },
            _ => {
                if !enabled {
                    return operation.end(None);
                }
                self.set_package(&operation.id, enabled, true, generation, false);
                operation.go(OperationPhase::CleanUp)
            },
        }
    }

    fn cleanup_done(&mut self, operation: Operation, failure: Option<ExtensionError>) -> (out:
        Operation)
        requires
            old(self).wf(),
            operation.phase is CleanUp,
            operation.kind is Reload ==> operation.generation < u64::MAX,
            old(self).packages.map().contains_key(operation.id@),
        ensures
            final(self).wf(),
            forall|event: OperationEvent| failure_of(event.result) == failure ==> #[trigger] old(
                self,
            ).advanced(*final(self), operation, event, out),
    {
        let key = key_of(&operation.id);
        let (enabled, linked, generation, cancelled) = match self.packages.get(&key) {
            Some(package) => (
                package.enabled,
                package.linked,
                package.generation,
                package.cancelled,
            ),
            None => (false, false, 0, false),
        };
        match operation.kind {
            OperationKind::Reload => {
                let renewed = operation.generation + 1;
                self.set_package(&operation.id, enabled, false, renewed, true);
                if failure.is_some() {
                    operation.end(failure)
                } else if enabled && linked {
                    operation.go(OperationPhase::Load)
                } else if enabled {
                    operation.announce(renewed, Announcement::ReloadedPendingSource)
                } else {
                    operation.end(None)
                }
            },
            _ => {
                self.set_package(&operation.id, false, cancelled, generation, false);
                let mut next = operation;
                next.trouble = failure;
                let about = next.generation;
                next.announce(about, Announcement::Disabled)
            },
        }
    }

    fn publish_done(&mut self, operation: Operation, failure: Option<ExtensionError>) -> (out:
        Operation)
        requires
            old(self).wf(),
            operation.phase is Publish,
            old(self).packages.map().contains_key(operation.id@),
        ensures
            final(self).wf(),
            forall|event: OperationEvent| failure_of(event.result) == failure ==> #[trigger] old(
                self,
            ).advanced(*final(self), operation, event, out),
    {
        let name = announcement_name(operation.announcement);
        match operation.kind {
            OperationKind::Load => {
                if failure.is_some() {
                    let ghost before = self.lifecycle.pending@;
                    self.lifecycle.remove_pending(&operation.id, operation.generation, name);
                    proof {
                        before.lemma_filter_len(
                            |p: LifecyclePublication|
                                p.id() != (
                                    operation.id@,
                                    operation.generation,
                                    announcement_text(operation.announcement),
                                ),
                        );
                    }
                    let mut next = operation;
                    next.trouble = failure;
                    next.go(OperationPhase::Undo)
                } else {
                    operation.end(None)
                }
            },
            _ => {
                let waits = self.lifecycle.pending_exists(
                    &operation.id,
                    operation.generation,
                    name,
                );
                let mut next = operation;
                let trouble = next.trouble;
                next.trouble = None;
                if failure.is_some() && !waits {
                    next.end(failure)
                } else {
                    next.end(trouble)
                }
            },
        }
    }

    /// Takes what came of the action that an operation waited for.
    pub fn advance(&mut self, operation: Operation, event: OperationEvent) -> (out: Operation)
        requires
            old(self).wf(),
            operation.phase is CleanUp && operation.kind is Reload ==> operation.generation
                < u64::MAX,
        ensures
            final(self).wf(),
            old(self).advanced(*final(self), operation, event, out),
    {
        let failure = take_failure(event.result);
        match operation.phase {
            OperationPhase::Finished => {
                return operation;
            },
            OperationPhase::Flush => {
                return self.flush_done(operation);
            },
            _ => {},
        }
        let key = key_of(&operation.id);
        let generation = match self.packages.get(&key) {
            None => {
                return operation.fail("unknown_extension", "extension is not installed");
            },
            Some(package) => package.generation,
        };
        match operation.phase {
            OperationPhase::Persist => self.persist_done(operation, failure),
            OperationPhase::ReadSource => {
                if failure.is_some() {
                    return operation.end(failure);
                }
                match operation.kind {
                    OperationKind::Reload => self.retire(operation),
                    _ => {
                        if self.lifecycle.ensure_capacity(1).is_err() {
                            return operation.fail(
                                "lifecycle_backpressure",
                                "lifecycle publication retry queue is full",
                            );
                        }
                        operation.go(OperationPhase::Register)
                    },
                }
            },
            OperationPhase::CleanUp => self.cleanup_done(operation, failure),
            OperationPhase::Load => {
                let enabling = match operation.kind {
                    OperationKind::Enable => true,
                    _ => false,
                };
                if failure.is_some() && enabling {
                    let mut next = operation;
                    next.trouble = failure;
                    next.go(OperationPhase::PersistBack)
                } else {
                    operation.end(failure)
                }
            },
            OperationPhase::PersistBack => {
                self.set_package(&operation.id, false, true, generation, false);
                let mut next = operation;
                let trouble = next.trouble;
                next.trouble = None;
                let first = take_first(failure, trouble);
                next.end(first)
            },
            OperationPhase::Register => {
                if failure.is_some() {
                    return operation.end(failure);
                }
                let announcement = if operation.generation == 1 {
                    Announcement::Loaded
                } else {
                    Announcement::Reloaded
                };
                let about = operation.generation;
                operation.announce(about, announcement)
            },
            OperationPhase::Publish => self.publish_done(operation, failure),
            OperationPhase::Undo => {
                let mut next = operation;
                let trouble = next.trouble;
                next.trouble = None;
                let first = take_first(failure, trouble);
                next.end(first)
            },
            OperationPhase::Flush | OperationPhase::Finished => operation,
        }
    }
}

impl Operation {
    /// How many events an operation still waits for, at most.
    pub open spec fn remaining(self) -> nat {
        match self.phase {
            OperationPhase::Flush => 7,
            OperationPhase::Persist => 6,
            OperationPhase::ReadSource => 5,
            OperationPhase::CleanUp => 4,
            OperationPhase::Load => 3,
            OperationPhase::Register => 3,
            OperationPhase::Publish => 2,
            OperationPhase::PersistBack => 1,
            OperationPhase::Undo => 1,
            OperationPhase::Finished => 0,
        }
    }
}

/// Every event brings an operation closer to its end.
pub proof fn operation_ends(
    before: ExtensionRuntime,
    after: ExtensionRuntime,
    operation: Operation,
    event: OperationEvent,
    out: Operation,
)
    requires
        before.advanced(after, operation, event, out),
        !(operation.phase is Finished),
        !(operation.kind is Load && operation.phase is Flush),
    ensures
        out.remaining() < operation.remaining(),
{
}

/// An operation that finds the queue of publications full, or whose new state cannot be saved, fails
/// before anything of the host changes.
pub proof fn refused_operation_changes_nothing(
    before: ExtensionRuntime,
    after: ExtensionRuntime,
    operation: Operation,
    event: OperationEvent,
    out: Operation,
)
    requires
        before.advanced(after, operation, event, out),
        (operation.phase is Flush && before.lifecycle.pending@.len()
            + ExtensionRuntime::room_needed(operation.kind) > EXTENSION_LIFECYCLE_PENDING_LIMIT) || (
        (operation.phase is Persist || operation.phase is ReadSource) && event.result is Err),
    ensures
        after == before,
        out.phase is Finished,
        out.failure is Some,
{
}

/// A reload that retires a generation goes on with the next one, which was not told to stop, whatever
/// came of the cleanup.
pub proof fn reload_makes_the_next_generation(
    before: ExtensionRuntime,
    after: ExtensionRuntime,
    operation: Operation,
    event: OperationEvent,
    out: Operation,
)
    requires
        before.advanced(after, operation, event, out),
        operation.kind is Reload,
        operation.phase is CleanUp,
        operation.generation < u64::MAX,
        before.packages.map().contains_key(operation.id@),
    ensures
        after.packages.map()[operation.id@].generation == operation.generation + 1,
        !after.packages.map()[operation.id@].cancelled,
        !after.active(operation.id@, operation.generation),
        after.packages.map()[operation.id@].enabled
            == before.packages.map()[operation.id@].enabled,
{
}

/// Once the new state was saved and the old generation cleaned up, a package is disabled, whatever
/// the cleanup and the announcement come to.
pub proof fn disable_disables(
    before: ExtensionRuntime,
    after: ExtensionRuntime,
    operation: Operation,
    event: OperationEvent,
    out: Operation,
)
    requires
        before.advanced(after, operation, event, out),
        operation.kind is Disable,
        operation.phase is CleanUp,
        before.packages.map().contains_key(operation.id@),
    ensures
        !after.packages.map()[operation.id@].enabled,
        !after.active(operation.id@, operation.generation),
        out.phase is Publish,
{
}

/// Enabling a package whose scripts cannot be loaded leaves it disabled and stopped.
pub proof fn failed_enable_leaves_disabled(
    before: ExtensionRuntime,
    after: ExtensionRuntime,
    operation: Operation,
    event: OperationEvent,
    out: Operation,
)
    requires
        before.advanced(after, operation, event, out),
        operation.phase is PersistBack,
        operation.trouble is Some,
        before.packages.map().contains_key(operation.id@),
    ensures
        !after.packages.map()[operation.id@].enabled,
        after.packages.map()[operation.id@].cancelled,
        out.phase is Finished,
        out.failure is Some,
{
}

/// An operation on one package leaves every other package as it is.
pub proof fn operation_leaves_others(
    before: ExtensionRuntime,
    after: ExtensionRuntime,
    operation: Operation,
    event: OperationEvent,
    out: Operation,
    other: Seq<char>,
)
    requires
        before.advanced(after, operation, event, out),
        other != operation.id@,
        before.packages.map().contains_key(other),
    ensures
        after.packages.map().contains_key(other),
        after.packages.map()[other] == before.packages.map()[other],
{
}

/// Whether two states of a package agree in whether it is enabled, whether it is linked, and where its
/// source lies.
pub open spec fn same_setting(a: PackageState, b: PackageState) -> bool {
    &&& a.enabled == b.enabled
    &&& a.linked == b.linked
    &&& a.source == b.source
}

/// Whether a package stands the same in both hosts: what happens between two steps of an operation is
/// for the operation to decide, so nothing else moves the package on.
pub open spec fn same_standing(a: ExtensionRuntime, b: ExtensionRuntime, id: Seq<char>) -> bool {
    &&& a.packages.map().contains_key(id) == b.packages.map().contains_key(id)
    &&& a.packages.map()[id].generation == b.packages.map()[id].generation
    &&& same_setting(a.packages.map()[id], b.packages.map()[id])
}

/// The course of an operation: `found` are the hosts that its steps found, `left` those that they
/// left behind, and `stages` the operation before the first step and after each.
pub struct Course {
    pub found: Seq<ExtensionRuntime>,
    pub left: Seq<ExtensionRuntime>,
    pub stages: Seq<Operation>,
    pub events: Seq<OperationEvent>,
}

impl Course {
    /// Every step is one of the operation's, and nothing else moves the package on.
    pub open spec fn wf(self, id: Seq<char>) -> bool {
        let n = self.events.len();
        &&& self.found.len() == n
        &&& self.left.len() == n
        &&& self.stages.len() == n + 1
        &&& forall|i: int|
            0 <= i < n ==> self.found[i].advanced(
                self.left[i],
                self.stages[i],
                #[trigger] self.events[i],
                self.stages[i + 1],
            )
        &&& forall|i: int|
            0 < i < n ==> same_standing(self.left[i - 1], #[trigger] self.found[i], id)
    }

    /// The host after the first `i` steps.
    pub open spec fn host(self, start: ExtensionRuntime, i: int) -> ExtensionRuntime {
        if i <= 0 {
            start
        } else {
            self.left[i - 1]
        }
    }
}

/// What holds at every stage of a reload of a package that began in the given state.
pub open spec fn reload_stands(
    host: ExtensionRuntime,
    operation: Operation,
    id: Seq<char>,
    start: PackageState,
) -> bool {
    let package = host.packages.map()[id];
    let now = package.generation;
    let generation = start.generation;
    &&& operation.kind is Reload
    &&& operation.id@ == id
    &&& operation.trouble is None
    &&& !(operation.phase is Finished) ==> operation.failure is None
    &&& host.packages.map().contains_key(id)
    &&& same_setting(package, start)
    &&& match operation.phase {
        OperationPhase::Flush => now == generation,
        OperationPhase::ReadSource => now == generation && operation.generation == generation,
        OperationPhase::CleanUp => now == generation && operation.generation == generation
            && generation < u64::MAX,
        OperationPhase::Load | OperationPhase::Publish => now == generation + 1,
        OperationPhase::Finished => now == generation + 1 || (now == generation
            && operation.failure is Some),
        _ => false,
    }
}

/// Whether a failure is that of an action that an operation waited for, among the first `n`.
pub open spec fn was_met(events: Seq<OperationEvent>, n: int, failure: ExtensionError) -> bool {
    exists|i: int|
        0 <= i < n && i < events.len() && (#[trigger] events[i]).result == Err::<
            (),
            ExtensionError,
        >(failure)
}

proof fn reload_keeps_standing(
    start: ExtensionRuntime,
    course: Course,
    id: Seq<char>,
    i: int,
)
    requires
        course.wf(id),
        start.begins(OperationKind::Reload, id, course.stages[0]),
        start.packages.map().contains_key(id),
        course.events.len() > 0 ==> same_standing(start, course.found[0], id),
        0 <= i <= course.events.len(),
    ensures
        reload_stands(
            course.host(start, i),
            course.stages[i],
            id,
            start.packages.map()[id],
        ),
        course.host(start, i).packages.map()[id].generation
            != start.packages.map()[id].generation ==> (course.stages[i].failure matches Some(
            failure,
        ) ==> was_met(course.events, i, failure)),
    decreases i,
{
    if i > 0 {
        reload_keeps_standing(start, course, id, i - 1);
        let event = course.events[i - 1];
        let before = course.found[i - 1];
        let earlier = course.stages[i - 1];
        assert(before.advanced(course.left[i - 1], earlier, event, course.stages[i]));
        if i > 1 {
            assert(same_standing(course.left[i - 2], course.found[i - 1], id));
        }
        if course.stages[i].failure is Some {
            let failure = course.stages[i].failure->Some_0;
            if event.result == Err::<(), ExtensionError>(failure) {
                assert(was_met(course.events, i, failure));
            }
            if was_met(course.events, i - 1, failure) {
                let k = choose|k: int|
                    0 <= k < i - 1 && k < course.events.len() && (
                    #[trigger] course.events[k]).result == Err::<(), ExtensionError>(failure);
                assert(course.events[k].result == Err::<(), ExtensionError>(failure));
                assert(was_met(course.events, i, failure));
            }
        }
    }
}

/// Whether an error is one with which a reload is refused.
pub open spec fn is_reload_refusal(error: ExtensionError) -> bool {
    error.code@ == "cleanup_pending"@ || error.code@ == "lifecycle_backpressure"@
}

/// A reload as a whole. Whatever comes of it, the package stays enabled or disabled, linked or not,
/// and its source where it is. Where it succeeds, the package is in the next generation, and the old
/// one is over: whatever it asks for is refused. Where resources of the package wait for their cleanup, or the queue of publications
/// is full, it is refused, and the package stays in its generation; and so it does wherever the
/// reload ends with such a refusal that none of the actions outside the host gave. It also does
/// wherever the reload fails before the old generation was retired.
pub proof fn reload_replaces_the_generation(start: ExtensionRuntime, course: Course, id: Seq<char>)
    requires
        course.wf(id),
        start.begins(OperationKind::Reload, id, course.stages[0]),
        start.packages.map().contains_key(id),
        course.events.len() > 0 ==> same_standing(start, course.found[0], id),
        course.stages.last().phase is Finished,
    ensures
        ({
            let generation = start.packages.map()[id].generation;
            let end = course.host(start, course.events.len() as int);
            let now = end.packages.map()[id].generation;
            &&& end.packages.map().contains_key(id)
            &&& same_setting(end.packages.map()[id], start.packages.map()[id])
            &&& course.stages.last().failure is None ==> now == generation + 1 && !end.active(
                id,
                generation,
            ) && end.refusal(id, generation) is Some
            &&& now == generation || now == generation + 1
            &&& start.awaits_cleanup(id) ==> now == generation && (
            course.stages.last().failure matches Some(e) && e.is(
                "cleanup_pending"@,
                "extension resources are awaiting authoritative cleanup"@,
            ))
            &&& !start.awaits_cleanup(id) && course.events.len() > 0
                && course.found[0].lifecycle.pending@.len() + 2 > EXTENSION_LIFECYCLE_PENDING_LIMIT
                ==> now == generation && (course.stages.last().failure matches Some(e) && e.is(
                "lifecycle_backpressure"@,
                "lifecycle publication retry queue is full"@,
            ))
            &&& (course.stages.last().failure matches Some(e) && is_reload_refusal(e) && !was_met(
                course.events,
                course.events.len() as int,
                e,
            )) ==> now == generation
            &&& (forall|i: int|
                0 <= i < course.stages.len() ==> !((#[trigger] course.stages[i]).phase is CleanUp))
                ==> now == generation
        }),
{
    let n = course.events.len() as int;
    reload_keeps_standing(start, course, id, n);
    if start.awaits_cleanup(id) {
        reload_stays_ended(start, course, id, 0, n);
    } else if n > 0 && course.found[0].lifecycle.pending@.len() + 2
        > EXTENSION_LIFECYCLE_PENDING_LIMIT {
        assert(course.found[0].advanced(
            course.left[0],
            course.stages[0],
            course.events[0],
            course.stages[1],
        ));
        reload_stays_ended(start, course, id, 1, n);
    }
    if forall|i: int|
        0 <= i < course.stages.len() ==> !((#[trigger] course.stages[i]).phase is CleanUp) {
        reload_stays_before_cleanup(start, course, id, n);
    }
}

proof fn reload_stays_ended(
    start: ExtensionRuntime,
    course: Course,
    id: Seq<char>,
    from: int,
    i: int,
)
    requires
        course.wf(id),
        start.begins(OperationKind::Reload, id, course.stages[0]),
        start.packages.map().contains_key(id),
        course.events.len() > 0 ==> same_standing(start, course.found[0], id),
        0 <= from <= i <= course.events.len(),
        course.stages[from].phase is Finished,
    ensures
        course.stages[i] == course.stages[from],
        course.host(start, i).packages.map()[id].generation == course.host(
            start,
            from,
        ).packages.map()[id].generation,
    decreases i,
{
    if i > from {
        reload_stays_ended(start, course, id, from, i - 1);
        let event = course.events[i - 1];
        assert(course.found[i - 1].advanced(
            course.left[i - 1],
            course.stages[i - 1],
            event,
            course.stages[i],
        ));
        if i > 1 {
            assert(same_standing(course.left[i - 2], course.found[i - 1], id));
        }
    }
}

proof fn reload_stays_before_cleanup(
    start: ExtensionRuntime,
    course: Course,
    id: Seq<char>,
    i: int,
)
    requires
        course.wf(id),
        start.begins(OperationKind::Reload, id, course.stages[0]),
        start.packages.map().contains_key(id),
        course.events.len() > 0 ==> same_standing(start, course.found[0], id),
        0 <= i <= course.events.len(),
        forall|j: int|
            0 <= j < course.stages.len() ==> !((#[trigger] course.stages[j]).phase is CleanUp),
    ensures
        course.host(start, i).packages.map()[id].generation
            == start.packages.map()[id].generation,
        course.stages[i].phase is Flush || course.stages[i].phase is ReadSource
            || course.stages[i].phase is Finished,
    decreases i,
{
    if i > 0 {
        reload_stays_before_cleanup(start, course, id, i - 1);
        reload_keeps_standing(start, course, id, i - 1);
        let event = course.events[i - 1];
        assert(course.found[i - 1].advanced(
            course.left[i - 1],
            course.stages[i - 1],
            event,
            course.stages[i],
        ));
        assert(!(course.stages[i].phase is CleanUp));
        if i > 1 {
            assert(same_standing(course.left[i - 2], course.found[i - 1], id));
        }
    }
}

/// Each change of a package is announced by its own name.
pub proof fn announcements_have_their_names(announcement: Announcement)
    ensures
        announcement is EnabledPendingSource ==> announcement_text(announcement)
            == "enabled_pending_source"@,
        announcement is Disabled ==> announcement_text(announcement) == "disabled"@,
        announcement is ReloadedPendingSource ==> announcement_text(announcement)
            == "reloaded_pending_source"@,
        announcement is Loaded ==> announcement_text(announcement) == "loaded"@,
        announcement is Reloaded ==> announcement_text(announcement) == "reloaded"@,
{
}

/// A package is enabled or reloaded where no cleanup of it is awaited, and loaded where it is installed,
/// enabled, linked to a source and not running; one that runs needs no loading.
pub proof fn operations_begin_where_they_can(
    host: ExtensionRuntime,
    kind: OperationKind,
    id: Seq<char>,
    out: Operation,
)
    requires
        host.begins(kind, id, out),
    ensures
        kind is Enable || kind is Reload ==> {
            &&& host.awaits_cleanup(id) <==> out.failure is Some
            &&& host.awaits_cleanup(id) <==> out.phase is Finished
            &&& !host.awaits_cleanup(id) <==> out.phase is Flush
        },
        kind is Disable ==> out.phase is Flush && out.failure is None,
        kind is Load ==> {
            let known = host.packages.map().contains_key(id);
            let package = host.packages.map()[id];
            let runs = host.has_worker(id, package.generation);
            &&& out.phase is ReadSource <==> known && package.enabled && !runs && package.linked
                && package.source is Some
            &&& out.phase is ReadSource ==> out.generation == package.generation
            &&& out.failure is None <==> known && package.enabled && (runs || (package.linked
                && package.source is Some))
            &&& !(out.phase is ReadSource) ==> out.phase is Finished
        },
{
}

/// A change goes on only where its announcements would still fit among the 64 that can wait: one of them,
/// and two for a reload.
pub proof fn announcements_need_room(host: ExtensionRuntime, operation: Operation, out: Operation)
    requires
        host.flushed(operation, out),
        host.packages.map().contains_key(operation.id@),
        !(operation.kind is Load),
        !(operation.phase is Finished),
    ensures
        operation.kind is Reload && host.lifecycle.pending@.len() > 62 ==> out.phase is Finished && (
        out.failure matches Some(e) && e.code@ == "lifecycle_backpressure"@),
        !(operation.kind is Reload) && host.lifecycle.pending@.len() > 63 ==> out.phase is Finished
            && (out.failure matches Some(e) && e.code@ == "lifecycle_backpressure"@),
        operation.kind is Enable && host.lifecycle.pending@.len() <= 63 ==> out.phase is Persist,
        operation.kind is Disable && host.lifecycle.pending@.len() <= 63 && !host.packages.map()[
            operation.id@
        ].enabled ==> out.phase is Persist,
{
}

/// Enabling a package that was disabled starts a new spell of it; then it is loaded where it is linked, and
/// otherwise announced as waiting for its source.
pub proof fn enabling_starts_a_spell(
    host: ExtensionRuntime,
    after: ExtensionRuntime,
    operation: Operation,
    event: OperationEvent,
    out: Operation,
)
    requires
        host.advanced(after, operation, event, out),
        operation.phase is Persist,
        operation.kind is Enable,
        event.result is Ok,
        host.packages.map().contains_key(operation.id@),
        !host.packages.map()[operation.id@].enabled,
    ensures
        ({
            let before = host.packages.map()[operation.id@];
            let package = after.packages.map()[operation.id@];
            &&& package.enabled
            &&& !package.cancelled
            &&& package.generation == before.generation
            &&& before.epoch < u64::MAX ==> package.epoch == before.epoch + 1
            &&& before.linked ==> out.phase is Load
            &&& !before.linked ==> out.phase is Publish && out.announcement is EnabledPendingSource
                && out.generation == before.generation
        }),
{
}

/// A package that was cleaned up for being disabled is disabled and announced so; one that was cleaned up
/// for a reload is in its next generation, in a new spell.
pub proof fn cleanup_leads_on(
    host: ExtensionRuntime,
    after: ExtensionRuntime,
    operation: Operation,
    event: OperationEvent,
    out: Operation,
)
    requires
        host.advanced(after, operation, event, out),
        operation.phase is CleanUp,
        operation.kind is Disable || operation.kind is Reload,
        host.packages.map().contains_key(operation.id@),
        operation.generation < u64::MAX,
    ensures
        ({
            let before = host.packages.map()[operation.id@];
            let package = after.packages.map()[operation.id@];
            &&& operation.kind is Disable ==> !package.enabled && package.generation
                == before.generation && out.phase is Publish && out.announcement is Disabled
                && out.generation == operation.generation
            &&& operation.kind is Reload ==> {
                &&& package.generation == operation.generation + 1
                &&& !package.cancelled
                &&& package.enabled == before.enabled
                &&& before.epoch < u64::MAX ==> package.epoch == before.epoch + 1
                &&& event.result matches Err(error) ==> out.phase is Finished && out.failure
                    == Some(error)
                &&& event.result is Ok && before.enabled && before.linked ==> out.phase is Load
                &&& event.result is Ok && before.enabled && !before.linked ==> out.phase is Publish
                    && out.announcement is ReloadedPendingSource && out.generation
                    == operation.generation + 1
                &&& event.result is Ok && !before.enabled ==> out.phase is Finished && out.failure
                    is None
            }
        }),
{
}

/// A package that registered is announced as loaded in its first generation, and as reloaded in every later
/// one; one that did not register ends with why.
pub proof fn registering_is_announced(
    host: ExtensionRuntime,
    after: ExtensionRuntime,
    operation: Operation,
    event: OperationEvent,
    out: Operation,
)
    requires
        host.advanced(after, operation, event, out),
        operation.phase is Register,
        host.packages.map().contains_key(operation.id@),
    ensures
        after == host,
        event.result matches Err(error) ==> out.phase is Finished && out.failure == Some(error),
        event.result is Ok ==> out.phase is Publish && out.generation == operation.generation && (
        if operation.generation == 1 {
            out.announcement is Loaded
        } else {
            out.announcement is Reloaded
        }),
{
}

/// The first failure is the one that an operation ends with.
pub proof fn first_failure_stays(a: Option<ExtensionError>, b: Option<ExtensionError>, epoch: u64)
    ensures
        a is Some ==> first_of(a, b) == a,
        a is None ==> first_of(a, b) == b,
        epoch < u64::MAX ==> next_epoch(epoch) == epoch + 1,
        next_epoch(u64::MAX) == 0,
{
}

/// A package that could not be loaded on being enabled is disabled again: that is saved, and the operation
/// ends with why it could not be loaded, or with why that could not be saved. A load that is asked for in
/// another way just ends with its result.
pub proof fn failed_load_is_taken_back(
    host: ExtensionRuntime,
    after: ExtensionRuntime,
    operation: Operation,
    event: OperationEvent,
    out: Operation,
)
    requires
        host.advanced(after, operation, event, out),
        host.packages.map().contains_key(operation.id@),
        operation.phase is Load || operation.phase is PersistBack,
    ensures
        operation.phase is Load ==> after == host,
        operation.phase is Load ==> match event.result {
            Ok(_) => out.phase is Finished && out.failure is None,
            Err(error) => if operation.kind is Enable {
                out.phase is PersistBack && out.trouble == Some(error)
            } else {
                out.phase is Finished && out.failure == Some(error)
            },
        },
        operation.phase is PersistBack ==> {
            let package = after.packages.map()[operation.id@];
            &&& !package.enabled
            &&& package.cancelled
            &&& package.generation == host.packages.map()[operation.id@].generation
            &&& out.phase is Finished
            &&& match event.result {
                Ok(_) => out.failure == operation.trouble,
                Err(error) => out.failure == Some(error),
            }
        },
{
}

/// A load whose announcement failed is undone and ends with why, and its announcement does not wait any
/// more; any other operation whose announcement failed ends with why unless that waits to be made again.
pub proof fn failed_announcement_undoes_a_load(
    host: ExtensionRuntime,
    after: ExtensionRuntime,
    operation: Operation,
    event: OperationEvent,
    out: Operation,
    waiting: LifecyclePublication,
)
    requires
        host.advanced(after, operation, event, out),
        host.packages.map().contains_key(operation.id@),
        operation.phase is Publish || operation.phase is Undo,
    ensures
        after.packages == host.packages,
        operation.phase is Publish && operation.kind is Load ==> match event.result {
            Ok(_) => out.phase is Finished && out.failure is None && after == host,
            Err(error) => {
                &&& out.phase is Undo
                &&& out.trouble == Some(error)
                &&& after.lifecycle.pending@.contains(waiting) <==> host.lifecycle.pending@.contains(
                    waiting,
                ) && waiting.id() != (
                    operation.id@,
                    operation.generation,
                    announcement_text(operation.announcement),
                )
            },
        },
        operation.phase is Publish && !(operation.kind is Load) ==> {
            let waits = exists|i: int|
                0 <= i < host.lifecycle.pending@.len() && (
                #[trigger] host.lifecycle.pending@[i]).id() == (
                    operation.id@,
                    operation.generation,
                    announcement_text(operation.announcement),
                );
            &&& after == host
            &&& out.phase is Finished
            &&& event.result matches Err(error) ==> !waits ==> out.failure == Some(error)
            &&& event.result is Ok || waits ==> out.failure == operation.trouble
        },
        operation.phase is Undo ==> after == host && out.phase is Finished && match event.result {
            Ok(_) => out.failure == operation.trouble,
            Err(error) => out.failure == Some(error),
        },
{
    let id = (operation.id@, operation.generation, announcement_text(operation.announcement));
    let pending = host.lifecycle.pending@;
    let ids = pending_ids(pending);
    if operation.phase is Publish && operation.kind is Load && event.result is Err {
        let keep = |p: LifecyclePublication| p.id() != id;
        broadcast use {
            Seq::lemma_filter_pred,
            Seq::lemma_filter_contains,
            Seq::lemma_filter_contains_rev,
        };

        let kept = pending.filter(keep);
        if kept.contains(waiting) {
            let i = choose|i: int| 0 <= i < kept.len() && kept[i] == waiting;
            assert(keep(kept[i]));
        }
        if pending.contains(waiting) && keep(waiting) {
            let i = choose|i: int| 0 <= i < pending.len() && pending[i] == waiting;
            assert(keep(pending[i]));
        }
    }
    if ids.contains(id) {
        let i = choose|i: int| 0 <= i < ids.len() && ids[i] == id;
        assert(pending[i].id() == id);
    }
    if exists|i: int| 0 <= i < pending.len() && (#[trigger] pending[i]).id() == id {
        let i = choose|i: int| 0 <= i < pending.len() && (#[trigger] pending[i]).id() == id;
        assert(ids[i] == id);
    }
}

/// What an operation could not save or read ends it with why, and changes nothing.
pub proof fn failed_steps_change_nothing(
    host: ExtensionRuntime,
    after: ExtensionRuntime,
    operation: Operation,
    event: OperationEvent,
    out: Operation,
    error: ExtensionError,
)
    requires
        host.advanced(after, operation, event, out),
        host.packages.map().contains_key(operation.id@),
        operation.phase is Persist || operation.phase is ReadSource,
        event.result == Err::<(), ExtensionError>(error),
    ensures
        after == host,
        out.phase is Finished,
        out.failure == Some(error),
{
}

/// A package that is disabled is first stopped and cleaned up; one that is disabled already stays as it
/// is.
pub proof fn disabling_stops_first(
    host: ExtensionRuntime,
    after: ExtensionRuntime,
    operation: Operation,
    event: OperationEvent,
    out: Operation,
)
    requires
        host.advanced(after, operation, event, out),
        host.packages.map().contains_key(operation.id@),
        operation.phase is Persist,
        operation.kind is Disable,
        event.result is Ok,
    ensures
        host.packages.map()[operation.id@].enabled ==> out.phase is CleanUp && after.packages.map()[
            operation.id@
        ].cancelled && after.packages.map()[operation.id@].enabled,
        !host.packages.map()[operation.id@].enabled ==> after == host && out.phase is Finished
            && out.failure is None,
{
}

}
