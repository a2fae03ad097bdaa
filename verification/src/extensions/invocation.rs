//! Calling the commands of packages.

use vstd::prelude::*;
use super::error::{CommandOutcome, ExtensionError};
use super::ids::ExtensionGeneration;
use super::runtime::{key_of, ExtensionCommandRecord, ExtensionRuntime};
use crate::text::join;

verus! {

/// How many calls may wait for a worker.
pub const EXTENSION_COMMAND_QUEUE_LIMIT: usize = 64;

/// How many workers run calls.
pub const EXTENSION_COMMAND_WORKERS: usize = 4;

/// A call that is to be run: the generation whose handler runs it, and the epoch that it belongs to.
#[derive(Debug)]
pub struct WorkItem {
    pub generation: ExtensionGeneration,
    pub epoch: u64,
    pub handler: u64,
}

/// Why a call could not be handed to the workers.
#[derive(Clone, Copy, Debug, PartialEq, Eq, Structural)]
pub enum QueueRefusal {
    Full,
    Disconnected,
}

/// What a caller that waits for an outcome got.
#[derive(Debug)]
pub enum Received {
    Outcome(CommandOutcome),
    Disconnected,
    Timeout,
}

/// Whether an outcome is a failure with the given code and message.
pub open spec fn failed_with(outcome: CommandOutcome, code: Seq<char>, message: Seq<char>) -> bool {
    outcome matches CommandOutcome::Failed { code: c, message: m } && c@ == code && m@ == message
}

fn failure(code: &str, message: &str) -> (out: CommandOutcome)
    ensures
        failed_with(out, code@, message@),
{
    CommandOutcome::Failed { code: code.to_owned(), message: message.to_owned() }
}

impl ExtensionRuntime {
    /// Whether the spell of a generation that a command was registered in is over.
    pub open spec fn spell_over(&self, owner: (Seq<char>, u64), epoch: u64) -> bool {
        !(self.packages.map().contains_key(owner.0) && self.packages.map()[owner.0].generation
            == owner.1 && self.packages.map()[owner.0].epoch == epoch
            && !self.packages.map()[owner.0].cancelled)
    }

    fn is_spell_over(&self, generation: &ExtensionGeneration, epoch: u64) -> (out: bool)
        requires
            self.wf(),
        ensures
            out == self.spell_over(generation.pair(), epoch),
    {
        match self.packages.get(&generation.extension_id) {
            Some(package) => !(package.generation == generation.generation && package.epoch
                == epoch && !package.cancelled),
            None => true,
        }
    }

    /// The name under which a command is found: its own, or the one that an alias stands for.
    pub open spec fn command_found(&self, command: Seq<char>, canonical: Option<Seq<char>>) -> Option<
        ExtensionCommandRecord,
    > {
        if self.commands.map().contains_key(command) {
            Some(self.commands.map()[command])
        } else {
            match canonical {
                Some(name) => if self.commands.map().contains_key(name) {
                    Some(self.commands.map()[name])
                } else {
                    None
                },
                None => None,
            }
        }
    }

    fn lookup_command(&self, command: &str, canonical: Option<&str>) -> (out: Option<
        &ExtensionCommandRecord,
    >)
        requires
            self.wf(),
        ensures
            match out {
                Some(record) => self.command_found(
                    command@,
                    (match canonical {
                        Some(name) => Some(name@),
                        None => None,
                    }),
                ) == Some(*record),
                None => self.command_found(
                    command@,
                    (match canonical {
                        Some(name) => Some(name@),
                        None => None,
                    }),
                ) is None,
            },
    {
        let key = key_of(command);
        match self.commands.get(&key) {
            Some(record) => Some(record),
            None => match canonical {
                Some(name) => {
                    let key = key_of(name);
                    self.commands.get(&key)
                },
                None => None,
            },
        }
    }

    /// Why a call is not run; `None` where it is.
    pub open spec fn call_refusal(
        &self,
        command: Seq<char>,
        canonical: Option<Seq<char>>,
        cancelled: bool,
    ) -> Option<(Seq<char>, Seq<char>)> {
        let found = self.command_found(command, canonical);
        if self.shutdown {
            Some(("extension_stopped"@, "extension runtime has been shut down"@))
        } else if found is None {
            Some(("unknown_command"@, "unknown extension command "@ + command))
        } else if self.spell_over(found->Some_0.generation.pair(), found->Some_0.epoch) {
            Some(("stale_generation"@, "extension command generation is stale"@))
        } else if cancelled {
            Some(("cancelled"@, "extension command was cancelled"@))
        } else {
            None
        }
    }

    /// Prepares a call. `canonical` is the command that the given name stands for in the registry,
    /// and `cancelled` whether the caller gave the call up.
    pub fn invoke_async(&self, command: &str, canonical: Option<&str>, cancelled: bool) -> (out: Result<
        WorkItem,
        CommandOutcome,
    >)
        requires
            self.wf(),
        ensures
            ({
                let alias = match canonical {
                    Some(name) => Some(name@),
                    None => None,
                };
                match self.call_refusal(command@, alias, cancelled) {
                    Some((code, message)) => out matches Err(outcome) && failed_with(
                        outcome,
                        code,
                        message,
                    ),
                    None => out matches Ok(item) && {
                        let record = self.command_found(command@, alias)->Some_0;
                        &&& item.generation.pair() == record.generation.pair()
                        &&& item.epoch == record.epoch
                        &&& item.handler == record.handler
                    },
                }
            }),
    {
        if self.shutdown {
            return Err(failure("extension_stopped", "extension runtime has been shut down"));
        }
        match self.lookup_command(command, canonical) {
            None => {
                let message = join("unknown extension command ", command);
                Err(failure("unknown_command", &message))
            },
            Some(record) => {
                if self.is_spell_over(&record.generation, record.epoch) {
                    Err(failure("stale_generation", "extension command generation is stale"))
                } else if cancelled {
                    Err(failure("cancelled", "extension command was cancelled"))
                } else {
                    Ok(
                        WorkItem {
                            generation: record.generation.copy(),
                            epoch: record.epoch,
                            handler: record.handler,
                        },
                    )
                }
            },
        }
    }

    /// Why a call of one generation's command is not run; `None` where it is.
    pub open spec fn exact_call_refusal(
        &self,
        command: Seq<char>,
        id: Seq<char>,
        generation: u64,
        cancelled: bool,
    ) -> Option<(Seq<char>, Seq<char>)> {
        let commands = self.commands.map();
        if self.refusal(id, generation) is Some {
            self.refusal(id, generation)
        } else if !commands.contains_key(command) || commands[command].generation.pair() != (
            id,
            generation,
        ) {
            Some(("stale_generation"@, "extension command generation is stale or reloaded"@))
        } else if cancelled || self.spell_over((id, generation), commands[command].epoch) {
            Some(("cancelled"@, "extension command was cancelled"@))
        } else {
            None
        }
    }

    /// Prepares a call of a command of exactly one generation.
    pub fn invoke_async_exact(
        &self,
        command: &str,
        id: &str,
        generation: u64,
        cancelled: bool,
    ) -> (out: Result<WorkItem, CommandOutcome>)
        requires
            self.wf(),
        ensures
            match self.exact_call_refusal(command@, id@, generation, cancelled) {
                Some((code, message)) => out matches Err(outcome) && failed_with(
                    outcome,
                    code,
                    message,
                ),
                None => out matches Ok(item) && {
                    &&& item.generation.pair() == (id@, generation)
                    &&& item.epoch == self.commands.map()[command@].epoch
                    &&& item.handler == self.commands.map()[command@].handler
                },
            },
    {
        match self.package_generation(id, generation) {
            Err(error) => {
                return Err(error.outcome());
            },
            Ok(_) => {},
        }
        let key = key_of(command);
        match self.commands.get(&key) {
            Some(record) if record.generation.is(id, generation) => {
                if cancelled || self.is_spell_over(&record.generation, record.epoch) {
                    Err(failure("cancelled", "extension command was cancelled"))
                } else {
                    Ok(
                        WorkItem {
                            generation: record.generation.copy(),
                            epoch: record.epoch,
                            handler: record.handler,
                        },
                    )
                }
            },
            _ => Err(
                failure("stale_generation", "extension command generation is stale or reloaded"),
            ),
        }
    }

    /// Why a call that a worker took up is not run; `None` where it may be started. `cancelled` tells
    /// whether the caller gave it up, `expired` whether its time ran out.
    pub fn execute(&self, item: &WorkItem, cancelled: bool, expired: bool) -> (out: Option<
        CommandOutcome,
    >)
        requires
            self.wf(),
        ensures
            match out {
                Some(outcome) => if cancelled || self.spell_over(
                    item.generation.pair(),
                    item.epoch,
                ) {
                    failed_with(outcome, "cancelled"@, "extension command was cancelled"@)
                } else {
                    expired && failed_with(
                        outcome,
                        "deadline_exceeded"@,
                        "extension command deadline expired"@,
                    )
                },
                None => !cancelled && !expired && !self.spell_over(
                    item.generation.pair(),
                    item.epoch,
                ),
            },
    {
        if cancelled || self.is_spell_over(&item.generation, item.epoch) {
            return Some(failure("cancelled", "extension command was cancelled"));
        }
        if expired {
            return Some(failure("deadline_exceeded", "extension command deadline expired"));
        }
        None
    }

    /// Why a call that was about to be run is not run after all; `None` where it is. `started` tells
    /// whether the call could be marked as started.
    pub fn execute_started(&self, item: &WorkItem, started: bool, cancelled: bool, expired: bool) -> (out:
        Option<CommandOutcome>)
        requires
            self.wf(),
        ensures
            match out {
                Some(outcome) => if !started || cancelled {
                    failed_with(
                        outcome,
                        "cancelled"@,
                        "extension command was cancelled before execution"@,
                    )
                } else if expired {
                    failed_with(
                        outcome,
                        "deadline_exceeded"@,
                        "extension command deadline expired"@,
                    )
                } else {
                    self.spell_over(item.generation.pair(), item.epoch) && failed_with(
                        outcome,
                        "cancelled"@,
                        "extension generation was cancelled before execution"@,
                    )
                },
                None => started && !cancelled && !expired && !self.spell_over(
                    item.generation.pair(),
                    item.epoch,
                ),
            },
    {
        if !started || cancelled {
            return Some(failure("cancelled", "extension command was cancelled before execution"));
        }
        if expired {
            return Some(failure("deadline_exceeded", "extension command deadline expired"));
        }
        if self.is_spell_over(&item.generation, item.epoch) {
            return Some(
                failure("cancelled", "extension generation was cancelled before execution"),
            );
        }
        None
    }

    /// Why a handler has to stop; `None` where it may go on.
    pub fn check(&self, item: &WorkItem, cancelled: bool, expired: bool) -> (out: Result<
        (),
        ExtensionError,
    >)
        requires
            self.wf(),
        ensures
            ({
                let stopped = cancelled || self.shutdown || self.spell_over(
                    item.generation.pair(),
                    item.epoch,
                );
                match out {
                    Ok(_) => !stopped && !expired,
                    Err(e) => if stopped {
                        e.is("cancelled"@, "extension command was cancelled"@)
                    } else {
                        expired && e.is(
                            "deadline_exceeded"@,
                            "extension command deadline expired"@,
                        )
                    },
                }
            }),
    {
        if cancelled || self.shutdown || self.is_spell_over(&item.generation, item.epoch) {
            return Err(ExtensionError::new("cancelled", "extension command was cancelled"));
        }
        if expired {
            return Err(
                ExtensionError::new("deadline_exceeded", "extension command deadline expired"),
            );
        }
        Ok(())
    }
}

/// The outcome of a call that could not be handed to the workers.
pub fn queue_outcome(refusal: QueueRefusal) -> (out: CommandOutcome)
    ensures
        match refusal {
            QueueRefusal::Full => failed_with(
                out,
                "extension_busy"@,
                "extension command worker queue is full"@,
            ),
            QueueRefusal::Disconnected => failed_with(
                out,
                "extension_stopped"@,
                "extension command workers are stopped"@,
            ),
        },
{
    match refusal {
        QueueRefusal::Full => failure("extension_busy", "extension command worker queue is full"),
        QueueRefusal::Disconnected => failure(
            "extension_stopped",
            "extension command workers are stopped",
        ),
    }
}

/// The outcome of a handler; `None` stands for one that panicked.
pub fn handler_outcome(result: Option<Result<String, ExtensionError>>) -> (out: CommandOutcome)
    ensures
        match result {
            Some(Ok(value)) => out == (CommandOutcome::Success { value }),
            Some(Err(error)) => out == (CommandOutcome::Failed {
                code: error.code,
                message: error.message,
            }),
            None => failed_with(out, "handler_panicked"@, "extension handler panicked"@),
        },
{
    match result {
        Some(Ok(value)) => CommandOutcome::Success { value },
        Some(Err(error)) => error.outcome(),
        None => failure("handler_panicked", "extension handler panicked"),
    }
}

/// What a caller that waits for an outcome returns, if it returns now. `expired` tells whether its
/// time ran out before it waited once more; the call is then given up.
pub fn invoke_blocking(expired: bool, received: Received, cancelled: bool) -> (out: Option<
    CommandOutcome,
>)
    ensures
        if expired {
            out matches Some(outcome) && failed_with(
                outcome,
                "deadline_exceeded"@,
                "extension command deadline expired"@,
            )
        } else {
            match received {
                Received::Outcome(outcome) => out == Some(outcome),
                Received::Disconnected => out matches Some(outcome) && failed_with(
                    outcome,
                    "extension_stopped"@,
                    "extension command worker stopped"@,
                ),
                Received::Timeout => if cancelled {
                    out matches Some(outcome) && failed_with(
                        outcome,
                        "cancelled"@,
                        "extension command was cancelled"@,
                    )
                } else {
                    out is None
                },
            }
        },
{
    if expired {
        return Some(failure("deadline_exceeded", "extension command deadline expired"));
    }
    match received {
        Received::Outcome(outcome) => Some(outcome),
        Received::Disconnected => Some(
            failure("extension_stopped", "extension command worker stopped"),
        ),
        Received::Timeout => if cancelled {
            Some(failure("cancelled", "extension command was cancelled"))
        } else {
            None
        },
    }
}

/// A call of a generation that was reloaded or disabled since is refused, and so is one that a worker
/// already took up.
pub proof fn stale_calls_are_refused(
    before: ExtensionRuntime,
    after: ExtensionRuntime,
    command: Seq<char>,
    id: Seq<char>,
    generation: u64,
    epoch: u64,
)
    requires
        after.packages.map().contains_key(id),
        after.packages.map()[id].generation != generation || after.packages.map()[id].cancelled
            || !after.packages.map()[id].enabled,
    ensures
        after.exact_call_refusal(command, id, generation, false) is Some,
        after.packages.map()[id].enabled ==> after.spell_over((id, generation), epoch),
{
}

}
