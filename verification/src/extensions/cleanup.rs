//! Retiring a generation: what it holds is taken back, inside the host and outside.
//!
//! A cleanup begins by cutting the generation off and listing what has to be taken back outside. The
//! caller does that and reports the first error. A cleanup that failed leaves a note, so that it is
//! tried again before the package goes on.

use vstd::prelude::*;
use super::error::ExtensionError;
use super::ids::ExtensionGeneration;
use super::metadata::RecordId;
use super::packages::changed_at;
use super::runtime::{
    key_of, BindingId, ExtensionCommandRecord, ExtensionEventRegistration, ExtensionRuntime,
    LuaWorker, MetadataBinding, MetadataBindingKey, PackageState, ProcessRecord,
    SubscriptionRecord, SurfaceRecord, TaskBinding, EXTENSION_CLEANUP_RETRY_LIMIT,
};
use super::command::copy_target;
use crate::table::{entry_in_map, kept, key_has_entry, map_len, taken, Duplicate, Owned, Table};
use crate::text_set::TextSet;

verus! {

/// What a cleanup takes back outside.
#[derive(Debug)]
pub struct CleanupPlan {
    /// Commands to take out of the registry.
    pub commands: Table<String, ExtensionCommandRecord>,
    /// Topics to take back.
    pub events: Table<String, ExtensionEventRegistration>,
    /// Subscriptions to end.
    pub subscriptions: Table<String, SubscriptionRecord>,
    /// Processes to stop.
    pub processes: Table<String, ProcessRecord>,
    /// Threads to stop.
    pub workers: Table<String, LuaWorker>,
    /// Metadata to clear.
    pub metadata: Table<MetadataBindingKey, MetadataBinding>,
    /// Tasks to end.
    pub tasks: Table<String, TaskBinding>,
    /// Surfaces whose end is announced, unless the host shuts down.
    pub surfaces: Table<String, SurfaceRecord>,
}

impl Duplicate for TaskBinding {
    fn duplicate(&self) -> (out: Self) {
        TaskBinding { resource: self.resource.copy() }
    }
}

impl Duplicate for SurfaceRecord {
    fn duplicate(&self) -> (out: Self) {
        SurfaceRecord { spec: self.spec.copy(), generation: self.generation.copy() }
    }
}

impl Duplicate for MetadataBindingKey {
    fn duplicate(&self) -> (out: Self) {
        MetadataBindingKey {
            resource: self.resource.copy(),
            namespace: self.namespace.clone(),
            key: self.key.clone(),
            target: copy_target(&self.target),
        }
    }
}

impl Duplicate for MetadataBinding {
    fn duplicate(&self) -> (out: Self) {
        MetadataBinding {
            resource: self.resource.copy(),
            namespace: self.namespace.clone(),
            key: self.key.clone(),
            target: copy_target(&self.target),
        }
    }
}

/// A package without some of its commands and topics.
pub open spec fn stripped(
    before: PackageState,
    after: PackageState,
    commands: Set<Seq<char>>,
    events: Set<Seq<char>>,
) -> bool {
    &&& after == (PackageState { commands: after.commands, events: after.events, ..before })
    &&& after.wf()
    &&& after.commands.set() == before.commands.set().difference(commands)
    &&& after.events.set() == before.events.set().difference(events)
}

/// Takes the keys of a table out of a set of names.
fn strip_names<V>(names: &mut TextSet, table: &Table<String, V>)
    requires
        old(names).wf(),
        table.wf(),
    ensures
        final(names).wf(),
        final(names).set() == old(names).set().difference(table.map().dom()),
{
    let mut i: usize = 0;
    let ghost all = names.set();
    while i < table.entries.len()
        invariant
            i <= table.entries@.len(),
            table.wf(),
            names.wf(),
            forall|k: Seq<char>| #[trigger] names.set().contains(k) ==> all.contains(k),
            forall|k: Seq<char>| #[trigger] all.contains(k) && !names.set().contains(k)
                ==> table.map().contains_key(k),
            forall|j: int|
                0 <= j < i ==> !names.set().contains((#[trigger] table.entries@[j]).0@),
        decreases table.entries@.len() - i,
    {
        proof {
            entry_in_map(table.entries@, i as int);
        }
        names.remove(&table.entries[i].0);
        i = i + 1;
    }
    proof {
        assert forall|k: Seq<char>| table.map().contains_key(k) implies !names.set().contains(k) by {
            let j = key_has_entry(table.entries@, k);
            assert(!names.set().contains(table.entries@[j].0@));
        }
        assert(names.set() =~= all.difference(table.map().dom()));
    }
}

impl ExtensionRuntime {
    /// The host after a generation was cut off: nothing can be invoked, published or confirmed in its
    /// name any more, and its processes and threads are no longer known.
    pub open spec fn cut_off(&self, after: ExtensionRuntime, id: Seq<char>, generation: u64) -> bool {
        let owner = (id, generation);
        &&& after == (ExtensionRuntime {
            packages: after.packages,
            commands: after.commands,
            events: after.events,
            subscriptions: after.subscriptions,
            processes: after.processes,
            lua_workers: after.lua_workers,
            file_confirmations: after.file_confirmations,
            command_reservations: after.command_reservations,
            event_reservations: after.event_reservations,
            ..*self
        })
        &&& after.commands.map() == kept(self.commands.map(), owner)
        &&& after.events.map() == kept(self.events.map(), owner)
        &&& after.subscriptions.map() == kept(self.subscriptions.map(), owner)
        &&& after.processes.map() == kept(self.processes.map(), owner)
        &&& after.lua_workers.map() == kept(self.lua_workers.map(), owner)
        &&& after.file_confirmations.map() == kept(self.file_confirmations.map(), owner)
        &&& after.command_reservations.map() == kept(self.command_reservations.map(), owner)
        &&& after.event_reservations.map() == kept(self.event_reservations.map(), owner)
        &&& if self.packages.map().contains_key(id) && self.packages.map()[id].generation
            == generation {
            &&& changed_at(self.packages.map(), after.packages.map(), id)
            &&& stripped(
                self.packages.map()[id],
                after.packages.map()[id],
                taken(self.commands.map(), owner).dom(),
                taken(self.events.map(), owner).dom(),
            )
        } else {
            after.packages == self.packages
        }
    }

    /// Cuts a generation off, and lists what has to be taken back outside.
    pub fn cleanup_generation(&mut self, id: &str, generation: u64) -> (out: CleanupPlan)
        requires
            old(self).wf(),
        ensures
            final(self).wf(),
            old(self).cut_off(*final(self), id@, generation),
            out.commands.map() == taken(old(self).commands.map(), (id@, generation)),
            out.events.map() == taken(old(self).events.map(), (id@, generation)),
            out.subscriptions.map() == taken(old(self).subscriptions.map(), (id@, generation)),
            out.processes.map() == taken(old(self).processes.map(), (id@, generation)),
            out.workers.map() == taken(old(self).lua_workers.map(), (id@, generation)),
            out.metadata.map() == taken(old(self).metadata.map(), (id@, generation)),
            out.tasks.map() == taken(old(self).tasks.map(), (id@, generation)),
            old(self).shutdown ==> out.surfaces.map().dom() == Set::<Seq<char>>::empty(),
            !old(self).shutdown ==> out.surfaces.map() == taken(
                old(self).surfaces.map(),
                (id@, generation),
            ),
    {
        self.file_confirmations.drop_generation(id, generation);
        self.command_reservations.drop_generation(id, generation);
        self.event_reservations.drop_generation(id, generation);
        let commands = self.commands.take_generation(id, generation);
        let events = self.events.take_generation(id, generation);
        let key = key_of(id);
        let current = match self.packages.get(&key) {
            Some(package) => package.generation == generation,
            None => false,
        };
        if current {
            match self.packages.remove(&key) {
                None => {},
                Some(mut package) => {
                    strip_names(&mut package.commands, &commands);
                    strip_names(&mut package.events, &events);
                    self.packages.insert(key, package);
                    proof {
                        let before = old(self).packages.map();
                        let after = self.packages.map();
                        assert(after =~= before.insert(id@, after[id@]));
                    }
                },
            }
        }
        let subscriptions = self.subscriptions.take_generation(id, generation);
        let processes = self.processes.take_generation(id, generation);
        let workers = self.lua_workers.take_generation(id, generation);
        let metadata = self.metadata.copy_generation(id, generation);
        let tasks = self.tasks.copy_generation(id, generation);
        let surfaces = if self.shutdown {
            let none: Table<String, SurfaceRecord> = Table::new();
            assert(none.map().dom() =~= Set::<Seq<char>>::empty());
            none
        } else {
            self.surfaces.copy_generation(id, generation)
        };
        CleanupPlan {
            commands,
            events,
            subscriptions,
            processes,
            workers,
            metadata,
            tasks,
            surfaces,
        }
    }

    /// The host after nothing of a generation is left.
    pub open spec fn purged(&self, after: ExtensionRuntime, id: Seq<char>, generation: u64) -> bool {
        let owner = (id, generation);
        &&& after == (ExtensionRuntime {
            tasks: after.tasks,
            metadata: after.metadata,
            surfaces: after.surfaces,
            storage: after.storage,
            logs: after.logs,
            observation_metadata: after.observation_metadata,
            process_reservations: after.process_reservations,
            task_reservations: after.task_reservations,
            ..*self
        })
        &&& after.tasks.map() == kept(self.tasks.map(), owner)
        &&& after.metadata.map() == kept(self.metadata.map(), owner)
        &&& after.surfaces.map() == kept(self.surfaces.map(), owner)
        &&& after.storage.map() == kept(self.storage.map(), owner)
        &&& after.logs.map() == kept(self.logs.map(), owner)
        &&& after.observation_metadata.map() == kept(self.observation_metadata.map(), owner)
        &&& after.process_reservations.map() == self.process_reservations.map().remove(owner)
        &&& after.task_reservations.map() == kept(self.task_reservations.map(), owner)
    }

    /// Whether there is room to note a failed cleanup.
    pub open spec fn retry_fits(&self, id: Seq<char>, generation: u64) -> bool {
        self.cleanup_retries.map().contains_key((id, generation)) || self.cleanup_retries.map().len()
            < EXTENSION_CLEANUP_RETRY_LIMIT
    }

    /// Refuses work whose failed cleanup could not be noted.
    pub fn ensure_cleanup_retry_capacity(&self, id: &str, generation: u64) -> (out: Result<
        (),
        ExtensionError,
    >)
        requires
            self.wf(),
        ensures
            out is Ok <==> self.retry_fits(id@, generation),
            out matches Err(e) ==> e.is(
                "cleanup_retry_full"@,
                "extension cleanup retry capacity is exhausted"@,
            ),
    {
        let key = ExtensionGeneration::of(id, generation);
        if self.cleanup_retries.contains(&key) || self.cleanup_retries.len()
            < EXTENSION_CLEANUP_RETRY_LIMIT {
            Ok(())
        } else {
            Err(
                ExtensionError::new(
                    "cleanup_retry_full",
                    "extension cleanup retry capacity is exhausted",
                ),
            )
        }
    }

    /// How often a cleanup was tried, with one more attempt.
    pub open spec fn one_more_attempt(retries: Map<(Seq<char>, u64), u8>, owner: (Seq<char>, u64)) -> Map<
        (Seq<char>, u64),
        u8,
    > {
        if retries.contains_key(owner) {
            retries.insert(
                owner,
                if retries[owner] == u8::MAX { u8::MAX } else { (retries[owner] + 1) as u8 },
            )
        } else {
            retries.insert(owner, 1)
        }
    }

    /// Notes that a cleanup failed.
    pub fn record_cleanup_retry(&mut self, id: &str, generation: u64) -> (out: Result<
        (),
        ExtensionError,
    >)
        requires
            old(self).wf(),
        ensures
            final(self).wf(),
            *final(self) == (ExtensionRuntime {
                cleanup_retries: final(self).cleanup_retries,
                ..*old(self)
            }),
            out is Ok <==> old(self).retry_fits(id@, generation),
            out matches Err(e) ==> *final(self) == *old(self) && e.is(
                "cleanup_retry_full"@,
                "extension cleanup retry capacity is exhausted"@,
            ),
            out is Ok ==> final(self).cleanup_retries.map() == Self::one_more_attempt(
                old(self).cleanup_retries.map(),
                (id@, generation),
            ),
    {
        let key = ExtensionGeneration::of(id, generation);
        let ghost before = self.cleanup_retries.map();
        let ghost owner = (id@, generation);
        match self.ensure_cleanup_retry_capacity(id, generation) {
            Err(error) => {
                return Err(error);
            },
            Ok(()) => {},
        }
        proof {
            map_len(self.cleanup_retries.entries@);
        }
        let attempts = match self.cleanup_retries.get(&key) {
            Some(attempts) => if *attempts == u8::MAX {
                u8::MAX
            } else {
                *attempts + 1
            },
            None => 1,
        };
        self.cleanup_retries.insert(key, attempts);
        proof {
            let after = self.cleanup_retries.map();
            if before.contains_key(owner) {
                assert(after.dom() =~= before.dom());
            } else {
                assert(after.dom() =~= before.dom().insert(owner));
            }
        }
        Ok(())
    }

    /// Forgets that a cleanup failed.
    pub fn clear_cleanup_retry(&mut self, id: &str, generation: u64)
        requires
            old(self).wf(),
        ensures
            final(self).wf(),
            *final(self) == (ExtensionRuntime {
                cleanup_retries: final(self).cleanup_retries,
                ..*old(self)
            }),
            final(self).cleanup_retries.map() == old(self).cleanup_retries.map().remove(
                (id@, generation),
            ),
    {
        let key = ExtensionGeneration::of(id, generation);
        proof {
            map_len(self.cleanup_retries.entries@);
            let before = self.cleanup_retries.map();
            if before.contains_key((id@, generation)) {
                assert(before.remove((id@, generation)).dom() =~= before.dom().remove(
                    (id@, generation),
                ));
            } else {
                assert(before.remove((id@, generation)) =~= before);
            }
        }
        let _ = self.cleanup_retries.remove(&key);
    }

    /// Whether a cleanup of a package is still to be tried again.
    pub open spec fn awaits_cleanup(&self, id: Seq<char>) -> bool {
        exists|generation: u64| #[trigger]
            self.cleanup_retries.map().contains_key((id, generation))
    }

    /// Whether a cleanup of a package is still to be tried again.
    pub fn cleanup_pending(&self, id: &str) -> (out: bool)
        requires
            self.wf(),
        ensures
            out == self.awaits_cleanup(id@),
    {
        let mut i: usize = 0;
        while i < self.cleanup_retries.entries.len()
            invariant
                i <= self.cleanup_retries.entries@.len(),
                self.cleanup_retries.wf(),
                forall|j: int|
                    0 <= j < i ==> (#[trigger] self.cleanup_retries.entries@[j]).0.extension_id@
                        != id@,
            decreases self.cleanup_retries.entries@.len() - i,
        {
            let entry = &self.cleanup_retries.entries[i];
            if crate::text::same_text(&entry.0.extension_id, id) {
                proof {
                    entry_in_map(self.cleanup_retries.entries@, i as int);
                    assert(self.cleanup_retries.map().contains_key((id@, entry.0.generation)));
                }
                return true;
            }
            i = i + 1;
        }
        proof {
            if self.awaits_cleanup(id@) {
                let generation = choose|generation: u64| #[trigger]
                    self.cleanup_retries.map().contains_key((id@, generation));
                let j = key_has_entry(self.cleanup_retries.entries@, (id@, generation));
                assert(self.cleanup_retries.entries@[j].0.extension_id@ == id@);
            }
        }
        false
    }

    /// The generations whose cleanup is to be tried again.
    pub fn retry_cleanup_tombstones(&self) -> (out: Vec<ExtensionGeneration>)
        requires
            self.wf(),
        ensures
            out@.len() == self.cleanup_retries.map().len(),
            forall|i: int|
                0 <= i < out@.len() ==> self.cleanup_retries.map().contains_key(
                    (#[trigger] out@[i]).pair(),
                ),
            forall|i: int, j: int|
                0 <= i < j < out@.len() ==> (#[trigger] out@[i]).pair() != (
                #[trigger] out@[j]).pair(),
    {
        proof {
            map_len(self.cleanup_retries.entries@);
        }
        let ghost keys = crate::table::ids(self.cleanup_retries.entries@);
        let mut out: Vec<ExtensionGeneration> = Vec::new();
        let mut i: usize = 0;
        while i < self.cleanup_retries.entries.len()
            invariant
                i <= self.cleanup_retries.entries@.len(),
                self.cleanup_retries.wf(),
                keys == crate::table::ids(self.cleanup_retries.entries@),
                out@.len() == i,
                forall|j: int| 0 <= j < i ==> (#[trigger] out@[j]).pair() == keys[j],
                forall|j: int|
                    0 <= j < i ==> self.cleanup_retries.map().contains_key(
                        (#[trigger] out@[j]).pair(),
                    ),
            decreases self.cleanup_retries.entries@.len() - i,
        {
            proof {
                entry_in_map(self.cleanup_retries.entries@, i as int);
            }
            out.push(self.cleanup_retries.entries[i].0.copy());
            i = i + 1;
        }
        out
    }

    /// Ends a cleanup with what taking back outside came to. Where that failed, the failure is noted,
    /// and what could not be taken back stays on record; else nothing of the generation is left.
    pub fn finish_cleanup(
        &mut self,
        id: &str,
        generation: u64,
        error: Option<ExtensionError>,
    ) -> (out: Result<(), ExtensionError>)
        requires
            old(self).wf(),
        ensures
            final(self).wf(),
            match error {
                None => out is Ok && old(self).purged(*final(self), id@, generation),
                Some(error) => {
                    &&& *final(self) == (ExtensionRuntime {
                        cleanup_retries: final(self).cleanup_retries,
                        ..*old(self)
                    })
                    &&& old(self).retry_fits(id@, generation) ==> out == Err::<(), ExtensionError>(
                        error,
                    ) && final(self).cleanup_retries.map() == Self::one_more_attempt(
                        old(self).cleanup_retries.map(),
                        (id@, generation),
                    )
                    &&& !old(self).retry_fits(id@, generation) ==> *final(self) == *old(self) && (
                    out matches Err(e) && e.is(
                        "cleanup_retry_full"@,
                        "extension cleanup retry capacity is exhausted"@,
                    ))
                },
            },
    {
        match error {
            Some(error) => match self.record_cleanup_retry(id, generation) {
                Err(full) => Err(full),
                Ok(()) => Err(error),
            },
            None => {
                self.tasks.drop_generation(id, generation);
                self.metadata.drop_generation(id, generation);
                self.surfaces.drop_generation(id, generation);
                self.storage.drop_generation(id, generation);
                self.logs.drop_generation(id, generation);
                self.observation_metadata.drop_generation(id, generation);
                let key = ExtensionGeneration::of(id, generation);
                let _ = self.process_reservations.remove(&key);
                self.task_reservations.drop_generation(id, generation);
                Ok(())
            },
        }
    }

    /// Ends a cleanup that left nothing. Where it was to be announced, `announced` is as what and what
    /// that came to; a publication that waits counts as announced.
    pub fn settle_cleanup(
        &mut self,
        id: &str,
        generation: u64,
        announced: Option<(&str, Result<(), ExtensionError>)>,
    ) -> (out: Result<(), ExtensionError>)
        requires
            old(self).wf(),
        ensures
            final(self).wf(),
            *final(self) == (ExtensionRuntime {
                cleanup_retries: final(self).cleanup_retries,
                ..*old(self)
            }),
            ({
                let settled = match announced {
                    None => true,
                    Some((operation, result)) => result is Ok || super::lifecycle::pending_ids(
                        old(self).lifecycle.pending@,
                    ).contains((id@, generation, operation@)),
                };
                if settled {
                    out is Ok && final(self).cleanup_retries.map() == old(
                        self,
                    ).cleanup_retries.map().remove((id@, generation))
                } else {
                    *final(self) == *old(self) && out == announced.unwrap().1
                }
            }),
    {
        match announced {
            Some((operation, Err(error))) => {
                if !self.lifecycle.pending_exists(id, generation, operation) {
                    return Err(error);
                }
            },
            _ => {},
        }
        self.clear_cleanup_retry(id, generation);
        Ok(())
    }
}

/// The first error of a list of results.
pub open spec fn first_failure(results: Seq<Result<(), ExtensionError>>) -> Option<ExtensionError>
    decreases results.len(),
{
    if results.len() == 0 {
        None
    } else {
        match results[0] {
            Err(error) => Some(error),
            Ok(_) => first_failure(results.drop_first()),
        }
    }
}

/// The first error of a list of results.
pub fn first_error(results: Vec<Result<(), ExtensionError>>) -> (out: Option<ExtensionError>)
    ensures
        out == first_failure(results@),
{
    let mut rest = results;
    while rest.len() > 0
        invariant
            first_failure(rest@) == first_failure(results@),
        decreases rest@.len(),
    {
        let ghost before = rest@;
        let first = rest.remove(0);
        assert(rest@ =~= before.drop_first());
        match first {
            Err(error) => {
                return Some(error);
            },
            Ok(()) => {},
        }
    }
    None
}

/// Retiring a generation takes nothing from any other: what belongs to others is the same before and
/// after, and nothing of the generation is left.
pub proof fn cleanup_takes_only_its_own(
    before: ExtensionRuntime,
    cut: ExtensionRuntime,
    after: ExtensionRuntime,
    id: Seq<char>,
    generation: u64,
)
    requires
        before.cut_off(cut, id, generation),
        cut.purged(after, id, generation),
    ensures
        forall|k: Seq<char>| #[trigger] after.commands.map().contains_key(k) <==> before.commands.map().contains_key(k)
            && before.commands.map()[k].owner() != (id, generation),
        forall|k: Seq<char>| #[trigger] after.processes.map().contains_key(k) <==> before.processes.map().contains_key(k)
            && before.processes.map()[k].owner() != (id, generation),
        forall|k: Seq<char>| #[trigger] after.tasks.map().contains_key(k) <==> before.tasks.map().contains_key(k)
            && before.tasks.map()[k].owner() != (id, generation),
        forall|k: Seq<char>| #[trigger] after.subscriptions.map().contains_key(k) <==> before.subscriptions.map().contains_key(k)
            && before.subscriptions.map()[k].owner() != (id, generation),
        forall|k: Seq<char>| #[trigger] after.events.map().contains_key(k) <==> before.events.map().contains_key(k)
            && before.events.map()[k].owner() != (id, generation),
        forall|k: Seq<char>| #[trigger] after.commands.map().contains_key(k) ==> after.commands.map()[k]
            == before.commands.map()[k],
        forall|k: Seq<char>| #[trigger] after.processes.map().contains_key(k) ==> after.processes.map()[k]
            == before.processes.map()[k],
        forall|k: Seq<char>| #[trigger] after.tasks.map().contains_key(k) ==> after.tasks.map()[k]
            == before.tasks.map()[k],
        forall|other: Seq<char>| #[trigger] before.packages.map().contains_key(other) && other != id
            ==> after.packages.map().contains_key(other) && after.packages.map()[other]
            == before.packages.map()[other],
{
}

/// Of several results the first failure counts, and there is none only where all are good.
pub proof fn first_failure_counts(results: Seq<Result<(), ExtensionError>>)
    ensures
        match first_failure(results) {
            None => forall|i: int| 0 <= i < results.len() ==> #[trigger] results[i] is Ok,
            Some(error) => exists|i: int|
                0 <= i < results.len() && #[trigger] results[i] == Err::<(), ExtensionError>(error)
                    && forall|j: int| 0 <= j < i ==> #[trigger] results[j] is Ok,
        },
    decreases results.len(),
{
    if results.len() > 0 {
        let rest = results.drop_first();
        match results[0] {
            Err(error) => {
                assert(results[0] == Err::<(), ExtensionError>(error));
            },
            Ok(_) => {
                first_failure_counts(rest);
                match first_failure(rest) {
                    None => {
                        assert forall|i: int| 0 <= i < results.len() implies #[trigger] results[i]
                            is Ok by {
                            if i > 0 {
                                assert(rest[i - 1] == results[i]);
                            }
                        }
                    },
                    Some(error) => {
                        let i = choose|i: int|
                            0 <= i < rest.len() && #[trigger] rest[i] == Err::<(), ExtensionError>(
                                error,
                            ) && forall|j: int| 0 <= j < i ==> #[trigger] rest[j] is Ok;
                        assert(results[i + 1] == Err::<(), ExtensionError>(error));
                        assert forall|j: int| 0 <= j < i + 1 implies #[trigger] results[j]
                            is Ok by {
                            if j > 0 {
                                assert(rest[j - 1] == results[j]);
                            }
                        }
                    },
                }
            },
        }
    }
}

/// Every failed cleanup counts one attempt more for its generation, and for no other; the count stops at
/// its end. A new one is taken up only where there is room.
pub proof fn attempts_are_counted(
    host: ExtensionRuntime,
    retries: Map<(Seq<char>, u64), u8>,
    owner: (Seq<char>, u64),
    other: (Seq<char>, u64),
)
    ensures
        ({
            let after = ExtensionRuntime::one_more_attempt(retries, owner);
            &&& after.contains_key(owner)
            &&& !retries.contains_key(owner) ==> after[owner] == 1
            &&& retries.contains_key(owner) && retries[owner] < 255 ==> after[owner]
                == retries[owner] + 1
            &&& retries.contains_key(owner) && retries[owner] == 255 ==> after[owner] == 255
            &&& other != owner ==> after.contains_key(other) == retries.contains_key(other)
            &&& other != owner && retries.contains_key(other) ==> after[other] == retries[other]
        }),
        host.retry_fits(owner.0, owner.1) <==> host.cleanup_retries.map().contains_key(owner)
            || host.cleanup_retries.map().len() < 256,
        host.cleanup_retries.map().contains_key(owner) ==> host.awaits_cleanup(owner.0),
{
    assert(owner == (owner.0, owner.1));
}

/// A generation that is cut off leaves none of what it registered or runs, and of what others registered or
/// run nothing is lost or changed.
pub proof fn cut_off_registers_nothing(
    before: ExtensionRuntime,
    cut: ExtensionRuntime,
    id: Seq<char>,
    generation: u64,
    k: Seq<char>,
)
    requires
        before.cut_off(cut, id, generation),
    ensures
        cut.commands.map().contains_key(k) <==> {
            let found = before.commands.map()[k];
            &&& before.commands.map().contains_key(k)
            &&& !(found.generation.extension_id@ == id && found.generation.generation == generation)
        },
        cut.commands.map().contains_key(k) ==> cut.commands.map()[k] == before.commands.map()[k],
        cut.events.map().contains_key(k) <==> {
            let found = before.events.map()[k];
            &&& before.events.map().contains_key(k)
            &&& !(found.generation.extension_id@ == id && found.generation.generation == generation)
        },
        cut.events.map().contains_key(k) ==> cut.events.map()[k] == before.events.map()[k],
        cut.subscriptions.map().contains_key(k) <==> {
            let found = before.subscriptions.map()[k];
            &&& before.subscriptions.map().contains_key(k)
            &&& !(found.generation.extension_id@ == id && found.generation.generation == generation)
        },
        cut.subscriptions.map().contains_key(k) ==> cut.subscriptions.map()[k] == before.subscriptions.map()[k],
        cut.processes.map().contains_key(k) <==> {
            let found = before.processes.map()[k];
            &&& before.processes.map().contains_key(k)
            &&& !(found.generation.extension_id@ == id && found.generation.generation == generation)
        },
        cut.processes.map().contains_key(k) ==> cut.processes.map()[k] == before.processes.map()[k],
        cut.lua_workers.map().contains_key(k) <==> {
            let found = before.lua_workers.map()[k];
            &&& before.lua_workers.map().contains_key(k)
            &&& !(found.generation.extension_id@ == id && found.generation.generation == generation)
        },
        cut.lua_workers.map().contains_key(k) ==> cut.lua_workers.map()[k] == before.lua_workers.map()[k],
        cut.command_reservations.map().contains_key(k) <==> {
            let found = before.command_reservations.map()[k];
            &&& before.command_reservations.map().contains_key(k)
            &&& !(found.extension_id@ == id && found.generation == generation)
        },
        cut.command_reservations.map().contains_key(k) ==> cut.command_reservations.map()[k] == before.command_reservations.map()[k],
        cut.event_reservations.map().contains_key(k) <==> {
            let found = before.event_reservations.map()[k];
            &&& before.event_reservations.map().contains_key(k)
            &&& !(found.extension_id@ == id && found.generation == generation)
        },
        cut.event_reservations.map().contains_key(k) ==> cut.event_reservations.map()[k] == before.event_reservations.map()[k],
        cut.file_confirmations.map().contains_key(k) <==> {
            let found = before.file_confirmations.map()[k].confirmation;
            &&& before.file_confirmations.map().contains_key(k)
            &&& !(found.extension.0@ == id && found.generation == generation)
        },
{
}

/// A generation that is purged leaves none of what it holds, and of what others hold nothing is lost or
/// changed.
pub proof fn purged_holds_nothing(
    before: ExtensionRuntime,
    after: ExtensionRuntime,
    id: Seq<char>,
    generation: u64,
    k: Seq<char>,
    record: RecordId,
    place: (BindingId, Seq<char>),
    binding: BindingId,
    other: (Seq<char>, u64),
)
    requires
        before.purged(after, id, generation),
    ensures
        after.tasks.map().contains_key(k) <==> {
            let found = before.tasks.map()[k];
            &&& before.tasks.map().contains_key(k)
            &&& !(found.resource.generation.extension_id@ == id && found.resource.generation.generation == generation)
        },
        after.tasks.map().contains_key(k) ==> after.tasks.map()[k] == before.tasks.map()[k],
        after.surfaces.map().contains_key(k) <==> {
            let found = before.surfaces.map()[k];
            &&& before.surfaces.map().contains_key(k)
            &&& !(found.generation.extension_id@ == id && found.generation.generation == generation)
        },
        after.surfaces.map().contains_key(k) ==> after.surfaces.map()[k] == before.surfaces.map()[k],
        after.task_reservations.map().contains_key(k) <==> {
            let found = before.task_reservations.map()[k];
            &&& before.task_reservations.map().contains_key(k)
            &&& !(found.extension_id@ == id && found.generation == generation)
        },
        after.task_reservations.map().contains_key(k) ==> after.task_reservations.map()[k] == before.task_reservations.map()[k],
        after.metadata.map().contains_key(record) <==> {
            let found = before.metadata.map()[record];
            &&& before.metadata.map().contains_key(record)
            &&& !(found.resource.generation.extension_id@ == id && found.resource.generation.generation == generation)
        },
        after.metadata.map().contains_key(record) ==> after.metadata.map()[record] == before.metadata.map()[record],
        after.storage.map().contains_key(place) <==> {
            let found = before.storage.map()[place];
            &&& before.storage.map().contains_key(place)
            &&& !(found.generation.extension_id@ == id && found.generation.generation == generation)
        },
        after.storage.map().contains_key(place) ==> after.storage.map()[place] == before.storage.map()[place],
        after.logs.map().contains_key(binding) <==> {
            let found = before.logs.map()[binding];
            &&& before.logs.map().contains_key(binding)
            &&& !(found.generation.extension_id@ == id && found.generation.generation == generation)
        },
        after.logs.map().contains_key(binding) ==> after.logs.map()[binding] == before.logs.map()[binding],
        after.observation_metadata.map().contains_key(binding) <==> {
            let found = before.observation_metadata.map()[binding];
            &&& before.observation_metadata.map().contains_key(binding)
            &&& !(found.generation.extension_id@ == id && found.generation.generation == generation)
        },
        after.observation_metadata.map().contains_key(binding) ==> after.observation_metadata.map()[binding] == before.observation_metadata.map()[binding],
        !after.process_reservations.map().contains_key((id, generation)),
        other != (id, generation) ==> after.process_reservations.map().contains_key(other)
            == before.process_reservations.map().contains_key(other),
{
}

/// A package whose generation is cut off no longer lists the commands and events that were its own, and
/// stays otherwise as it was.
pub proof fn cut_off_lists_nothing(
    before: ExtensionRuntime,
    cut: ExtensionRuntime,
    id: Seq<char>,
    generation: u64,
    name: Seq<char>,
)
    requires
        before.cut_off(cut, id, generation),
        before.packages.map().contains_key(id),
    ensures
        ({
            let old_package = before.packages.map()[id];
            let package = cut.packages.map()[id];
            let command = before.commands.map()[name].generation;
            let event = before.events.map()[name].generation;
            let own_command = before.commands.map().contains_key(name) && command.extension_id@ == id
                && command.generation == generation;
            let own_event = before.events.map().contains_key(name) && event.extension_id@ == id
                && event.generation == generation;
            &&& package.generation == old_package.generation
            &&& package.enabled == old_package.enabled
            &&& old_package.generation == generation ==> {
                &&& package.commands.set().contains(name) <==> old_package.commands.set().contains(
                    name,
                ) && !own_command
                &&& package.events.set().contains(name) <==> old_package.events.set().contains(name)
                    && !own_event
            }
            &&& old_package.generation != generation ==> package == old_package
        }),
{
    let owner = (id, generation);
    let commands = taken(before.commands.map(), owner);
    let events = taken(before.events.map(), owner);
    assert(commands.dom().contains(name) <==> commands.contains_key(name));
    assert(events.dom().contains(name) <==> events.contains_key(name));
}

}
