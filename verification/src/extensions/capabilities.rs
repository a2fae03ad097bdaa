//! What a running generation of a package may do with the host. It acts under its own identity only:
//! its package, its generation, its process and its scope.

use vstd::prelude::*;
use vstd::utf8::encode_utf8;
use super::command::{CommandTarget, OwnerIdentity};
use super::error::ExtensionError;
use super::ids::{extension_scope, metadata_namespace_text, scope_text, ExtensionGeneration};
use super::json::Json;
use super::logs::{log_entry_is, log_within_limits, EXTENSION_LOG_BYTES};
use super::metadata::{record_id, visible_namespace, MetadataPlace, MetadataRecord};
use super::packages::changed_at;
use super::registrations::Committed;
use super::runtime::{
    refused_by, BindingId, ExtensionLogEntry, ExtensionResourceBinding, ExtensionRuntime,
    HostObservation,
};
use super::storage::{StorageFile, StorageLookup};
use crate::outside::json_reading;
use crate::table::TableKey;
use crate::text_set::TextSet;

verus! {

/// The identity under which a generation acts.
#[derive(Debug)]
pub struct ExtensionRuntimeCapabilities {
    pub generation: ExtensionGeneration,
    pub owner: OwnerIdentity,
}

impl ExtensionRuntimeCapabilities {
    /// The package.
    pub open spec fn id(&self) -> Seq<char> {
        self.generation.extension_id@
    }

    /// The number of the generation.
    pub open spec fn number(&self) -> u64 {
        self.generation.generation
    }

    /// The scope of the generation.
    pub open spec fn scope(&self) -> Seq<char> {
        scope_text(self.id(), self.number())
    }

    /// What resources of the generation are bound to.
    pub open spec fn binding(&self) -> BindingId {
        ExtensionRuntime::binding_of(self.id(), self.number(), self.owner)
    }

    /// The generation that acts.
    pub fn generation(&self) -> (out: &ExtensionGeneration)
        ensures
            *out == self.generation,
    {
        &self.generation
    }

    /// Checks a task of the generation before it is told to stop.
    pub fn cancel_task(&self, runtime: &ExtensionRuntime, task: &str) -> (out: Result<(), ExtensionError>)
        requires
            runtime.wf(),
        ensures
            out is Ok <==> runtime.task_use_refusal(task@, self.id(), self.number(), self.owner) is None,
            refused_by(out, runtime.task_use_refusal(task@, self.id(), self.number(), self.owner)),
    {
        self.task_status(runtime, task)
    }

    /// Reserves the start of a task for the generation that holds this.
    pub fn start_task(
        &self,
        runtime: &mut ExtensionRuntime,
    ) -> (out:
        Result<ExtensionResourceBinding, ExtensionError>)
        requires
            old(runtime).wf(),
        ensures
            final(runtime).wf(),
            *final(runtime) == (ExtensionRuntime {
                task_reservations: final(runtime).task_reservations,
                ..*old(runtime)
            }),
            out is Ok <==> old(runtime).task_start_refusal(self.id(), self.number(), self.scope()) is None,
            refused_by(out, old(runtime).task_start_refusal(self.id(), self.number(), self.scope())),
            out is Err ==> *final(runtime) == *old(runtime),
            out matches Ok(binding) ==> {
                let after = final(runtime).task_reservations.map();
                &&& binding.binding_id() == self.binding()
                &&& changed_at(old(runtime).task_reservations.map(), after, self.id())
                &&& after[self.id()].pair() == (self.id(), self.number())
            },
    {
        let scope = extension_scope(&self.generation.extension_id, self.generation.generation);
        runtime.start_task(
            &self.generation.extension_id,
            self.generation.generation,
            self.owner,
            &scope,
        )
    }

    /// Records a task that was started, or drops the reservation.
    pub fn commit_task(
        &self,
        runtime: &mut ExtensionRuntime,
        binding: ExtensionResourceBinding,
        started: Result<String, ExtensionError>,
    ) -> (out: Committed<()>)
        requires
            old(runtime).wf(),
        ensures
            final(runtime).wf(),
            *final(runtime) == (ExtensionRuntime {
                tasks: final(runtime).tasks,
                task_reservations: final(runtime).task_reservations,
                ..*old(runtime)
            }),
            final(runtime).task_reservations.map() == old(runtime).task_reservations.map().remove(self.id()),
            out.result is Err ==> final(runtime).tasks == old(runtime).tasks,
            match started {
                Err(error) => !out.undo && out.result == Err::<(), ExtensionError>(error),
                Ok(task) => {
                    &&& out.undo <==> out.result is Err
                    &&& out.result is Ok <==> !old(runtime).shutdown && old(runtime).active(
                        self.id(),
                        self.number(),
                    )
                    &&& old(runtime).shutdown ==> (out.result matches Err(e) && e.is(
                        "extension_stopped"@,
                        "extension runtime has been shut down"@,
                    ))
                    &&& !old(runtime).shutdown && !old(runtime).active(self.id(), self.number()) ==> (out.result
                        matches Err(e) && e.is(
                        "stale_generation"@,
                        "extension generation is stale"@,
                    ))
                    &&& out.result is Ok ==> {
                        let after = final(runtime).tasks.map();
                        &&& changed_at(old(runtime).tasks.map(), after, task@)
                        &&& after[task@].resource == binding
                    }
                },
            },
    {
        runtime.commit_task(
            &self.generation.extension_id,
            self.generation.generation,
            binding,
            started,
        )
    }

    /// Checks a task of the generation before its state is read.
    pub fn task_status(
        &self,
        runtime: &ExtensionRuntime,
        task: &str,
    ) -> (out:
        Result<(), ExtensionError>)
        requires
            runtime.wf(),
        ensures
            out is Ok <==> runtime.task_use_refusal(task@, self.id(), self.number(), self.owner) is None,
            refused_by(out, runtime.task_use_refusal(task@, self.id(), self.number(), self.owner)),
    {
        runtime.task_status(
            task,
            &self.generation.extension_id,
            self.generation.generation,
            self.owner,
        )
    }

    /// Forgets a task of the generation once it was finished.
    pub fn finish_task(
        &self,
        runtime: &mut ExtensionRuntime,
        task: &str,
        finished: Result<(), ExtensionError>,
    ) -> (out: Result<(), ExtensionError>)
        requires
            old(runtime).wf(),
        ensures
            final(runtime).wf(),
            *final(runtime) == (ExtensionRuntime { tasks: final(runtime).tasks, ..*old(runtime) }),
            refused_by(out, old(runtime).task_use_refusal(task@, self.id(), self.number(), self.owner)),
            old(runtime).task_use_refusal(task@, self.id(), self.number(), self.owner) is None ==> (match finished {
                Ok(_) => out is Ok,
                Err(error) => out == Err::<(), ExtensionError>(error),
            }),
            out is Err ==> *final(runtime) == *old(runtime),
            out is Ok ==> final(runtime).tasks.map() == old(runtime).tasks.map().remove(task@),
    {
        runtime.finish_task(
            task,
            &self.generation.extension_id,
            self.generation.generation,
            self.owner,
            finished,
        )
    }

    /// Checks an event that the generation publishes in its own scope.
    pub fn publish_event(
        &self,
        runtime: &ExtensionRuntime,
        topic: &str,
        payload: &str,
        target: &Option<CommandTarget>,
    ) -> (out: Result<(), ExtensionError>)
        requires
            runtime.wf(),
        ensures
            out is Ok <==> runtime.publication_refusal(
                self.id(),
                self.number(),
                topic@,
                self.scope(),
                *target,
                payload@,
            ) is None,
            refused_by(
                out,
                runtime.publication_refusal(self.id(), self.number(), topic@, self.scope(), *target, payload@),
            ),
    {
        let scope = extension_scope(&self.generation.extension_id, self.generation.generation);
        runtime.publish_event(
            &self.generation.extension_id,
            self.generation.generation,
            topic,
            &scope,
            payload,
            target,
        )
    }

    /// Checks a subscription of the generation in its own scope.
    pub fn subscribe_event(
        &self,
        runtime: &ExtensionRuntime,
        topic: &str,
    ) -> (out: Result<
        (),
        ExtensionError,
    >)
        requires
            runtime.wf(),
        ensures
            out is Ok <==> runtime.subscription_refusal(self.id(), self.number(), topic@, self.scope()) is None,
            refused_by(out, runtime.subscription_refusal(self.id(), self.number(), topic@, self.scope())),
    {
        let scope = extension_scope(&self.generation.extension_id, self.generation.generation);
        runtime.subscribe_event(
            &self.generation.extension_id,
            self.generation.generation,
            topic,
            &scope,
        )
    }

    /// Records a subscription of the generation.
    pub fn commit_subscription(
        &self,
        runtime: &mut ExtensionRuntime,
        subscription: &str,
    ) -> (out: Result<(), ExtensionError>)
        requires
            old(runtime).wf(),
        ensures
            final(runtime).wf(),
            *final(runtime) == (ExtensionRuntime {
                subscriptions: final(runtime).subscriptions,
                ..*old(runtime)
            }),
            out is Ok <==> old(runtime).active(self.id(), self.number()),
            out matches Err(e) ==> *final(runtime) == *old(runtime) && e.is(
                "stale_generation"@,
                "event generation is stale"@,
            ),
            out is Ok ==> {
                let after = final(runtime).subscriptions.map();
                &&& changed_at(old(runtime).subscriptions.map(), after, subscription@)
                &&& after[subscription@].owner == self.owner
                &&& after[subscription@].generation.pair() == (self.id(), self.number())
            },
    {
        runtime.commit_subscription(
            &self.generation.extension_id,
            self.generation.generation,
            self.owner,
            subscription,
        )
    }

    /// Where metadata of the generation goes.
    pub fn publish_metadata(
        &self,
        runtime: &ExtensionRuntime,
        namespace: &str,
        target: &Option<CommandTarget>,
        provenance: &Json,
    ) -> (out: Result<MetadataPlace, ExtensionError>)
        requires
            runtime.wf(),
        ensures
            out is Ok <==> runtime.publish_refusal(
                self.id(),
                self.number(),
                self.scope(),
                namespace@,
                *target,
                *provenance,
            ) is None,
            refused_by(
                out,
                runtime.publish_refusal(self.id(), self.number(), self.scope(), namespace@, *target, *provenance),
            ),
            out matches Ok(place) ==> {
                &&& place.binding.binding_id() == self.binding()
                &&& place.namespace@ == metadata_namespace_text(self.id(), namespace@)
            },
    {
        let scope = extension_scope(&self.generation.extension_id, self.generation.generation);
        runtime.publish_metadata(
            &self.generation.extension_id,
            self.generation.generation,
            self.owner,
            &scope,
            namespace,
            target,
            provenance,
        )
    }

    /// Where metadata of the generation is kept, where it published it.
    pub fn metadata_get(
        &self,
        runtime: &ExtensionRuntime,
        namespace: &str,
        key: &str,
        target: &Option<CommandTarget>,
    ) -> (out: Result<Option<MetadataPlace>, ExtensionError>)
        requires
            runtime.wf(),
        ensures
            out is Ok <==> runtime.place_refusal(self.id(), self.number(), namespace@, *target) is None,
            refused_by(out, runtime.place_refusal(self.id(), self.number(), namespace@, *target)),
            out matches Ok(found) ==> {
                let known = runtime.metadata.map().contains_key(
                    record_id(self.id(), self.number(), self.owner, namespace@, key@, *target),
                );
                &&& found is Some <==> known
                &&& found matches Some(place) ==> place.binding.binding_id() == self.binding() && place.namespace@ == metadata_namespace_text(self.id(), namespace@)
            },
    {
        runtime.metadata_get(
            &self.generation.extension_id,
            self.generation.generation,
            self.owner,
            namespace,
            key,
            target,
        )
    }

    /// Where metadata of the generation is to be cleared.
    pub fn metadata_clear(
        &self,
        runtime: &ExtensionRuntime,
        namespace: &str,
        target: &Option<CommandTarget>,
    ) -> (out: Result<MetadataPlace, ExtensionError>)
        requires
            runtime.wf(),
        ensures
            out is Ok <==> runtime.place_refusal(self.id(), self.number(), namespace@, *target) is None,
            refused_by(out, runtime.place_refusal(self.id(), self.number(), namespace@, *target)),
            out matches Ok(place) ==> {
                &&& place.binding.binding_id() == self.binding()
                &&& place.namespace@ == metadata_namespace_text(self.id(), namespace@)
            },
    {
        runtime.metadata_clear(
            &self.generation.extension_id,
            self.generation.generation,
            self.owner,
            namespace,
            target,
        )
    }

    /// The metadata that the generation published.
    pub fn metadata_list(
        &self,
        runtime: &ExtensionRuntime,
        kept: Vec<MetadataRecord>,
    ) -> (out: Result<Vec<MetadataRecord>, ExtensionError>)
        requires
            runtime.wf(),
        ensures
            out is Ok <==> runtime.binding_refusal(self.id(), self.number()) is None,
            refused_by(out, runtime.binding_refusal(self.id(), self.number())),
            out matches Ok(list) ==> {
                let binding = self.binding();
                let own = kept@.filter(|r: MetadataRecord| runtime.published_record(binding, r));
                &&& list@.len() == own.len()
                &&& forall|i: int|
                    0 <= i < own.len() ==> (#[trigger] list@[i]).namespace@ == visible_namespace(
                        self.id(),
                        own[i].namespace@,
                    ) && list@[i] == (MetadataRecord { namespace: list@[i].namespace, ..own[i] })
            },
    {
        runtime.metadata_list(
            &self.generation.extension_id,
            self.generation.generation,
            self.owner,
            kept,
        )
    }

    /// Adds an entry to the log of the generation.
    pub fn log(
        &self,
        runtime: &mut ExtensionRuntime,
        level: &str,
        message: &str,
        timestamp_ms: u64,
    ) -> (out: Result<(), ExtensionError>)
        requires
            old(runtime).wf(),
        ensures
            final(runtime).wf(),
            *final(runtime) == (ExtensionRuntime { logs: final(runtime).logs, ..*old(runtime) }),
            refused_by(out, old(runtime).binding_refusal(self.id(), self.number())),
            old(runtime).binding_refusal(self.id(), self.number()) is None ==> {
                &&& out is Ok <==> encode_utf8(message@).len() <= EXTENSION_LOG_BYTES
                &&& out matches Err(e) ==> e.is(
                    "log_too_large"@,
                    "extension log entry exceeds host limit"@,
                )
            },
            out is Err ==> *final(runtime) == *old(runtime),
            out is Ok ==> {
                let binding = self.binding();
                let after = final(runtime).logs.map();
                &&& after.contains_key(binding)
                &&& after == old(runtime).logs.map().insert(binding, after[binding])
                &&& exists|entry: ExtensionLogEntry| #[trigger]
                    log_entry_is(entry, timestamp_ms, level@, message@, self.number())
                        && final(runtime).log_of(binding) == log_within_limits(
                        old(runtime).log_of(binding).push(entry),
                    )
            },
    {
        runtime.log(
            &self.generation.extension_id,
            self.generation.generation,
            self.owner,
            level,
            message,
            timestamp_ms,
        )
    }

    /// The log of the generation.
    pub fn logs(
        &self,
        runtime: &ExtensionRuntime,
    ) -> (out: Result<
        Vec<ExtensionLogEntry>,
        ExtensionError,
    >)
        requires
            runtime.wf(),
        ensures
            out is Ok <==> runtime.binding_refusal(self.id(), self.number()) is None,
            refused_by(out, runtime.binding_refusal(self.id(), self.number())),
            out matches Ok(list) ==> list@ == runtime.log_of(self.binding()),
    {
        runtime.logs(&self.generation.extension_id, self.generation.generation, self.owner)
    }

    /// What the generation sees of the host.
    pub fn observe(
        &self,
        runtime: &ExtensionRuntime,
    ) -> (out: Result<
        HostObservation,
        ExtensionError,
    >)
        requires
            runtime.wf(),
        ensures
            out is Ok <==> runtime.binding_refusal(self.id(), self.number()) is None,
            refused_by(out, runtime.binding_refusal(self.id(), self.number())),
            out matches Ok(seen) ==> {
                &&& seen.topology@ == runtime.topology@
                &&& seen.terminals@ == runtime.terminals@
                &&& seen.metadata@ == runtime.observed_metadata(
                    self.binding(),
                )
            },
    {
        runtime.observe(&self.generation.extension_id, self.generation.generation, self.owner)
    }

    /// Sets what the generation sees of the host.
    pub fn replace_observation(&self, runtime: &mut ExtensionRuntime, observation: HostObservation) -> (out:
        Result<(), ExtensionError>)
        requires
            old(runtime).wf(),
        ensures
            final(runtime).wf(),
            *final(runtime) == (ExtensionRuntime {
                observation_metadata: final(runtime).observation_metadata,
                ..*old(runtime)
            }),
            out is Ok <==> old(runtime).observation_refusal(self.id(), self.number(), observation)
                is None,
            refused_by(
                out,
                old(runtime).observation_refusal(self.id(), self.number(), observation),
            ),
            out is Err ==> *final(runtime) == *old(runtime),
            out is Ok ==> {
                let binding = self.binding();
                let after = final(runtime).observation_metadata.map();
                &&& after.contains_key(binding)
                &&& after == old(runtime).observation_metadata.map().insert(binding, after[binding])
                &&& json_reading(observation.metadata@) == Ok::<Seq<char>, Seq<char>>(
                    after[binding].metadata@,
                )
                &&& after[binding].generation.pair() == (self.id(), self.number())
            },
    {
        runtime.replace_observation(
            &self.generation.extension_id,
            self.generation.generation,
            self.owner,
            observation,
        )
    }

    /// Where a stored value of the generation is.
    pub fn storage_get(
        &self,
        runtime: &ExtensionRuntime,
        key: &str,
    ) -> (out: Result<StorageLookup, ExtensionError>)
        requires
            runtime.wf(),
        ensures
            refused_by(out, runtime.storage_refusal(self.id(), self.number(), key@)),
            runtime.storage_refusal(self.id(), self.number(), key@) is None ==> {
                match runtime.held(self.binding(), key@) {
                    Some(value) => out matches Ok(StorageLookup::Value(text)) && text@ == value,
                    None => match runtime.storage_place(self.id()) {
                        Ok(None) => out matches Ok(StorageLookup::Nothing),
                        Ok(Some((root, namespace))) => out matches Ok(StorageLookup::File(file))
                            && file.root@ == root && file.namespace@ == namespace,
                        Err(_) => out matches Err(e) && e.is(
                            "invalid_storage_namespace"@,
                            "storage namespace must be a single normal path component"@,
                        ),
                    },
                }
            },
    {
        runtime.storage_get(
            &self.generation.extension_id,
            self.generation.generation,
            self.owner,
            key,
        )
    }

    /// Checks a value that the generation stores.
    pub fn storage_put(
        &self,
        runtime: &ExtensionRuntime,
        key: &str,
        value: &str,
    ) -> (out: Result<Option<StorageFile>, ExtensionError>)
        requires
            runtime.wf(),
        ensures
            out is Ok <==> runtime.put_refusal(self.id(), self.number(), self.owner, key@, value@) is None,
            refused_by(out, runtime.put_refusal(self.id(), self.number(), self.owner, key@, value@)),
            out matches Ok(file) ==> runtime.is_storage_place(self.id(), file),
    {
        runtime.storage_put(
            &self.generation.extension_id,
            self.generation.generation,
            self.owner,
            key,
            value,
        )
    }

    /// Checks a key that the generation deletes.
    pub fn storage_delete(
        &self,
        runtime: &ExtensionRuntime,
        key: &str,
    ) -> (out:
        Result<Option<StorageFile>, ExtensionError>)
        requires
            runtime.wf(),
        ensures
            refused_by(out, runtime.storage_refusal(self.id(), self.number(), key@)),
            runtime.storage_refusal(self.id(), self.number(), key@) is None ==> match out {
                Ok(file) => runtime.is_storage_place(self.id(), file),
                Err(e) => runtime.storage_place(self.id()) is Err && e.is(
                    "invalid_storage_namespace"@,
                    "storage namespace must be a single normal path component"@,
                ),
            },
    {
        runtime.storage_delete(
            &self.generation.extension_id,
            self.generation.generation,
            self.owner,
            key,
        )
    }

    /// The keys that the generation stored in memory.
    pub fn storage_list(
        &self,
        runtime: &ExtensionRuntime,
    ) -> (out: Result<
        (TextSet, Option<StorageFile>),
        ExtensionError,
    >)
        requires
            runtime.wf(),
        ensures
            refused_by(out, runtime.binding_refusal(self.id(), self.number())),
            runtime.binding_refusal(self.id(), self.number()) is None ==> match out {
                Ok((keys, file)) => {
                    &&& runtime.is_storage_place(self.id(), file)
                    &&& keys.wf()
                    &&& forall|k: Seq<char>|
                        keys.set().contains(k) <==> #[trigger] runtime.storage.map().contains_key(
                            (self.binding(), k),
                        )
                },
                Err(e) => runtime.storage_place(self.id()) is Err && e.is(
                    "invalid_storage_namespace"@,
                    "storage namespace must be a single normal path component"@,
                ),
            },
    {
        runtime.storage_list(&self.generation.extension_id, self.generation.generation, self.owner)
    }
}

}
