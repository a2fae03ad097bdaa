//! Tasks of packages.

use vstd::prelude::*;
use super::command::OwnerIdentity;
use super::error::ExtensionError;
use super::ids::{scope_text, ExtensionGeneration};
use super::packages::changed_at;
use super::registrations::Committed;
use super::runtime::{key_of, refused_by, ExtensionResourceBinding, ExtensionRuntime, TaskBinding};
use crate::text::same_text;

verus! {

impl ExtensionRuntime {
    /// Why a generation may not start a task; `None` where it may.
    pub open spec fn task_start_refusal(&self, id: Seq<char>, generation: u64, scope: Seq<char>) -> Option<
        (Seq<char>, Seq<char>),
    > {
        if self.binding_refusal(id, generation) is Some {
            self.binding_refusal(id, generation)
        } else if scope != scope_text(id, generation) {
            Some(("invalid_binding_scope"@, "extension task scope is host-owned"@))
        } else if self.task_reservations.map().contains_key(id) {
            Some(("task_busy"@, "extension task start is already reserved"@))
        } else {
            None
        }
    }

    /// Reserves the start of a task: a package starts one at a time.
    pub fn start_task(&mut self, id: &str, generation: u64, owner: OwnerIdentity, scope: &str) -> (out:
        Result<ExtensionResourceBinding, ExtensionError>)
        requires
            old(self).wf(),
        ensures
            final(self).wf(),
            *final(self) == (ExtensionRuntime {
                task_reservations: final(self).task_reservations,
                ..*old(self)
            }),
            out is Ok <==> old(self).task_start_refusal(id@, generation, scope@) is None,
            refused_by(out, old(self).task_start_refusal(id@, generation, scope@)),
            out is Err ==> *final(self) == *old(self),
            out matches Ok(binding) ==> {
                let after = final(self).task_reservations.map();
                &&& binding.binding_id() == Self::binding_of(id@, generation, owner)
                &&& changed_at(old(self).task_reservations.map(), after, id@)
                &&& after[id@].pair() == (id@, generation)
            },
    {
        let binding = match self.resource_binding(id, generation, owner) {
            Ok(binding) => binding,
            Err(error) => {
                return Err(error);
            },
        };
        if !same_text(scope, &binding.scope) {
            return Err(
                ExtensionError::new("invalid_binding_scope", "extension task scope is host-owned"),
            );
        }
        let key = key_of(id);
        if self.task_reservations.contains(&key) {
            return Err(
                ExtensionError::new("task_busy", "extension task start is already reserved"),
            );
        }
        self.task_reservations.insert(key, ExtensionGeneration::of(id, generation));
        Ok(binding)
    }

    /// Records a task that was started, or drops the reservation. A task whose generation was retired
    /// in between, or whose host was shut down, is refused, and the caller ends it.
    pub fn commit_task(
        &mut self,
        id: &str,
        generation: u64,
        binding: ExtensionResourceBinding,
        started: Result<String, ExtensionError>,
    ) -> (out: Committed<()>)
        requires
            old(self).wf(),
        ensures
            final(self).wf(),
            *final(self) == (ExtensionRuntime {
                tasks: final(self).tasks,
                task_reservations: final(self).task_reservations,
                ..*old(self)
            }),
            final(self).task_reservations.map() == old(self).task_reservations.map().remove(id@),
            out.result is Err ==> final(self).tasks == old(self).tasks,
            match started {
                Err(error) => !out.undo && out.result == Err::<(), ExtensionError>(error),
                Ok(task) => {
                    &&& out.undo <==> out.result is Err
                    &&& out.result is Ok <==> !old(self).shutdown && old(self).active(
                        id@,
                        generation,
                    )
                    &&& old(self).shutdown ==> (out.result matches Err(e) && e.is(
                        "extension_stopped"@,
                        "extension runtime has been shut down"@,
                    ))
                    &&& !old(self).shutdown && !old(self).active(id@, generation) ==> (out.result
                        matches Err(e) && e.is(
                        "stale_generation"@,
                        "extension generation is stale"@,
                    ))
                    &&& out.result is Ok ==> {
                        let after = final(self).tasks.map();
                        &&& changed_at(old(self).tasks.map(), after, task@)
                        &&& after[task@].resource == binding
                    }
                },
            },
    {
        let key = key_of(id);
        let _ = self.task_reservations.remove(&key);
        match started {
            Err(error) => Committed { result: Err(error), undo: false },
            Ok(task) => {
                if self.shutdown {
                    return Committed {
                        result: Err(
                            ExtensionError::new(
                                "extension_stopped",
                                "extension runtime has been shut down",
                            ),
                        ),
                        undo: true,
                    };
                }
                if self.validate_package_state(id, generation).is_err() {
                    return Committed {
                        result: Err(
                            ExtensionError::new(
                                "stale_generation",
                                "extension generation is stale",
                            ),
                        ),
                        undo: true,
                    };
                }
                self.tasks.insert(task, TaskBinding { resource: binding });
                Committed { result: Ok(()), undo: false }
            },
        }
    }

    /// Why a task is not open to a holder; `None` where it is.
    pub open spec fn task_refusal(
        &self,
        task: Seq<char>,
        id: Seq<char>,
        generation: u64,
        owner: OwnerIdentity,
    ) -> Option<(Seq<char>, Seq<char>)> {
        let tasks = self.tasks.map();
        let resource = tasks[task].resource;
        if !tasks.contains_key(task) {
            Some(("unknown_task"@, "task is not an extension task"@))
        } else if resource.generation.extension_id@ != id {
            Some(("task_owner_mismatch"@, "task belongs to another extension"@))
        } else if resource.generation.generation != generation {
            Some(("stale_generation"@, "task belongs to a stale extension generation"@))
        } else if resource.owner != owner {
            Some(("task_owner_mismatch"@, "task belongs to another owner"@))
        } else if resource.scope@ != scope_text(id, generation) {
            Some(("invalid_binding_scope"@, "task scope is not owned by this extension"@))
        } else {
            None
        }
    }

    /// Refuses a task that another generation or another process holds.
    fn validate_task_binding(&self, task: &str, expected: &ExtensionResourceBinding) -> (out: Result<
        (),
        ExtensionError,
    >)
        requires
            self.wf(),
            expected.scope@ == scope_text(
                expected.generation.extension_id@,
                expected.generation.generation,
            ),
        ensures
            out is Ok <==> self.task_refusal(
                task@,
                expected.generation.extension_id@,
                expected.generation.generation,
                expected.owner,
            ) is None,
            refused_by(
                out,
                self.task_refusal(
                    task@,
                    expected.generation.extension_id@,
                    expected.generation.generation,
                    expected.owner,
                ),
            ),
    {
        let key = key_of(task);
        match self.tasks.get(&key) {
            None => Err(ExtensionError::new("unknown_task", "task is not an extension task")),
            Some(binding) => {
                if !same_text(
                    &binding.resource.generation.extension_id,
                    &expected.generation.extension_id,
                ) {
                    Err(
                        ExtensionError::new(
                            "task_owner_mismatch",
                            "task belongs to another extension",
                        ),
                    )
                } else if binding.resource.generation.generation != expected.generation.generation {
                    Err(
                        ExtensionError::new(
                            "stale_generation",
                            "task belongs to a stale extension generation",
                        ),
                    )
                } else if binding.resource.owner != expected.owner {
                    Err(ExtensionError::new("task_owner_mismatch", "task belongs to another owner"))
                } else if !same_text(&binding.resource.scope, &expected.scope) {
                    Err(
                        ExtensionError::new(
                            "invalid_binding_scope",
                            "task scope is not owned by this extension",
                        ),
                    )
                } else {
                    Ok(())
                }
            },
        }
    }

    /// Why a holder may not use a task; `None` where it may.
    pub open spec fn task_use_refusal(
        &self,
        task: Seq<char>,
        id: Seq<char>,
        generation: u64,
        owner: OwnerIdentity,
    ) -> Option<(Seq<char>, Seq<char>)> {
        if self.binding_refusal(id, generation) is Some {
            self.binding_refusal(id, generation)
        } else {
            self.task_refusal(task, id, generation, owner)
        }
    }

    /// Checks a task before its state is read or it is told to stop.
    pub fn task_status(&self, task: &str, id: &str, generation: u64, owner: OwnerIdentity) -> (out:
        Result<(), ExtensionError>)
        requires
            self.wf(),
        ensures
            out is Ok <==> self.task_use_refusal(task@, id@, generation, owner) is None,
            refused_by(out, self.task_use_refusal(task@, id@, generation, owner)),
    {
        match self.resource_binding(id, generation, owner) {
            Err(error) => Err(error),
            Ok(binding) => self.validate_task_binding(task, &binding),
        }
    }

    /// Forgets a task once it was finished; `finished` is what finishing it came to.
    pub fn finish_task(
        &mut self,
        task: &str,
        id: &str,
        generation: u64,
        owner: OwnerIdentity,
        finished: Result<(), ExtensionError>,
    ) -> (out: Result<(), ExtensionError>)
        requires
            old(self).wf(),
        ensures
            final(self).wf(),
            *final(self) == (ExtensionRuntime { tasks: final(self).tasks, ..*old(self) }),
            refused_by(out, old(self).task_use_refusal(task@, id@, generation, owner)),
            old(self).task_use_refusal(task@, id@, generation, owner) is None ==> match finished {
                Ok(_) => out is Ok,
                Err(error) => out == Err::<(), ExtensionError>(error),
            },
            out is Err ==> *final(self) == *old(self),
            out is Ok ==> final(self).tasks.map() == old(self).tasks.map().remove(task@),
    {
        match self.task_status(task, id, generation, owner) {
            Err(error) => Err(error),
            Ok(()) => match finished {
                Err(error) => Err(error),
                Ok(()) => {
                    let key = key_of(task);
                    let _ = self.tasks.remove(&key);
                    Ok(())
                },
            },
        }
    }
}

}
