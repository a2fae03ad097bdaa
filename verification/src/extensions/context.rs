//! What a handler sees of the call that it runs.

use vstd::prelude::*;
use super::announcements::{publish_progress, HostEvent};
use super::capabilities::ExtensionRuntimeCapabilities;
use super::command::{Caller, CommandInvocation, CommandTarget, OwnerIdentity};
use super::error::ExtensionError;
use super::ids::ExtensionGeneration;
use super::invocation::WorkItem;
use super::json::Json;
use super::lua_value::{json_view, JsonView};
use super::runtime::ExtensionRuntime;

verus! {

/// A call that is being run. Times are milliseconds.
#[derive(Debug)]
pub struct ExtensionCommandContext {
    pub invocation: CommandInvocation,
    pub deadline: u64,
    pub work: WorkItem,
    pub owner: OwnerIdentity,
}

impl ExtensionCommandContext {
    /// Whether the call has to stop: it was cancelled, its generation is over, or the host is.
    pub open spec fn stopped(&self, runtime: ExtensionRuntime, cancelled: bool) -> bool {
        cancelled || runtime.shutdown || runtime.spell_over(
            self.work.generation.pair(),
            self.work.epoch,
        )
    }

    /// The call.
    pub fn invocation(&self) -> (out: &CommandInvocation)
        ensures
            *out == self.invocation,
    {
        &self.invocation
    }

    /// The arguments of the call.
    pub fn arguments(&self) -> (out: &[String])
        ensures
            out@ == self.invocation.arguments@,
    {
        self.invocation.arguments.as_slice()
    }

    /// The target of the call.
    pub fn target(&self) -> (out: Option<&CommandTarget>)
        ensures
            match out {
                Some(target) => self.invocation.target == Some(*target),
                None => self.invocation.target is None,
            },
    {
        match &self.invocation.target {
            Some(target) => Some(target),
            None => None,
        }
    }

    /// Who calls.
    pub fn caller(&self) -> (out: Caller)
        ensures
            out == self.invocation.caller,
    {
        self.invocation.caller
    }

    /// When the call is over.
    pub fn deadline(&self) -> (out: u64)
        ensures
            out == self.deadline,
    {
        self.deadline
    }

    /// Whether the handler has to stop.
    pub fn is_cancelled(&self, runtime: &ExtensionRuntime, cancelled: bool, now: u64) -> (out: bool)
        requires
            runtime.wf(),
        ensures
            out == (self.stopped(*runtime, cancelled) || now >= self.deadline),
    {
        runtime.check(&self.work, cancelled, now >= self.deadline).is_err()
    }

    /// Why the handler has to stop.
    pub fn check(&self, runtime: &ExtensionRuntime, cancelled: bool, now: u64) -> (out: Result<
        (),
        ExtensionError,
    >)
        requires
            runtime.wf(),
        ensures
            match out {
                Ok(_) => !self.stopped(*runtime, cancelled) && now < self.deadline,
                Err(e) => if self.stopped(*runtime, cancelled) {
                    e.is("cancelled"@, "extension command was cancelled"@)
                } else {
                    now >= self.deadline && e.is(
                        "deadline_exceeded"@,
                        "extension command deadline expired"@,
                    )
                },
            },
    {
        runtime.check(&self.work, cancelled, now >= self.deadline)
    }

    /// What the handler may do with the host.
    pub fn runtime(&self) -> (out: ExtensionRuntimeCapabilities)
        ensures
            out.id() == self.work.generation.extension_id@,
            out.number() == self.work.generation.generation,
            out.owner == self.owner,
    {
        ExtensionRuntimeCapabilities {
            generation: ExtensionGeneration::of(
                &self.work.generation.extension_id,
                self.work.generation.generation,
            ),
            owner: self.owner,
        }
    }

    /// The event that tells how far the call is. A call that has to stop tells nothing.
    pub fn progress(&self, runtime: &ExtensionRuntime, cancelled: bool, now: u64, value: Json) -> (out:
        Result<HostEvent, ExtensionError>)
        requires
            runtime.wf(),
        ensures
            match out {
                Ok(event) => {
                    &&& !self.stopped(*runtime, cancelled) && now < self.deadline
                    &&& event.topic@ == "task.changed"@
                    &&& json_view(event.subject) == JsonView::Object(
                        seq![("command"@, JsonView::Text(self.invocation.command@))],
                    )
                    &&& json_view(event.content) == JsonView::Object(
                        seq![("progress"@, json_view(value))],
                    )
                },
                Err(e) => if self.stopped(*runtime, cancelled) {
                    e.is("cancelled"@, "extension command was cancelled"@)
                } else {
                    now >= self.deadline && e.is(
                        "deadline_exceeded"@,
                        "extension command deadline expired"@,
                    )
                },
            },
    {
        match self.check(runtime, cancelled, now) {
            Err(error) => Err(error),
            Ok(()) => Ok(publish_progress(&self.invocation.command, value)),
        }
    }
}

/// Work stops where it was cancelled, where the host stops, and where the spell of its package is over: the
/// package is gone, cancelled, in another generation or enabled anew. Otherwise it goes on.
pub proof fn work_stops_with_its_spell(
    context: ExtensionCommandContext,
    runtime: ExtensionRuntime,
    cancelled: bool,
)
    ensures
        !context.stopped(runtime, cancelled) <==> {
            let id = context.work.generation.extension_id@;
            let package = runtime.packages.map()[id];
            &&& !cancelled
            &&& !runtime.shutdown
            &&& runtime.packages.map().contains_key(id)
            &&& package.generation == context.work.generation.generation
            &&& package.epoch == context.work.epoch
            &&& !package.cancelled
        },
{
}

}
