//! Commands that packages register.
//!
//! A registration first reserves the command's name; the caller then registers the command where
//! callers look it up, and commits or drops the reservation with what came of that.

use vstd::prelude::*;
use super::error::{command_outcome_error, CommandOutcome, ExtensionError};
use super::ids::{is_package_id, ExtensionGeneration, ExtensionPackageId};
use super::packages::changed_at;
use super::runtime::{key_of, refused_by, ExtensionCommandRecord, ExtensionRuntime, PackageState};
use crate::text::{trim, trimmed};

verus! {

/// A name that was reserved for a command, and the epoch of the package at that moment.
#[derive(Debug)]
pub struct CommandReservation {
    pub command: String,
    pub epoch: u64,
}

/// What came of a commit, and whether the caller has to take back what it registered.
#[derive(Debug)]
pub struct Committed<T> {
    pub result: Result<T, ExtensionError>,
    pub undo: bool,
}

/// A package with one more command.
pub open spec fn with_command(before: PackageState, after: PackageState, command: Seq<char>) -> bool {
    &&& after == (PackageState { commands: after.commands, ..before })
    &&& after.commands.wf()
    &&& after.commands.set() == before.commands.set().insert(command)
}

impl ExtensionRuntime {
    /// Why a name cannot be reserved for a command; `None` where it can.
    pub open spec fn command_refusal(&self, id: Seq<char>, generation: u64, command: Seq<char>) -> Option<
        (Seq<char>, Seq<char>),
    > {
        if self.refusal(id, generation) is Some {
            self.refusal(id, generation)
        } else if self.commands.map().contains_key(command)
            || self.command_reservations.map().contains_key(command) {
            Some(("command_collision"@, "command is already registered"@))
        } else {
            None
        }
    }

    /// Reserves a command's name, without the white space around it, for a generation.
    pub fn register_command(&mut self, id: &str, generation: u64, command: &str) -> (out: Result<
        CommandReservation,
        ExtensionError,
    >)
        requires
            old(self).wf(),
        ensures
            final(self).wf(),
            *final(self) == (ExtensionRuntime {
                command_reservations: final(self).command_reservations,
                ..*old(self)
            }),
            out is Ok <==> old(self).command_refusal(id@, generation, trim(command@)) is None,
            refused_by(out, old(self).command_refusal(id@, generation, trim(command@))),
            out is Err ==> *final(self) == *old(self),
            out matches Ok(reservation) ==> {
                let after = final(self).command_reservations.map();
                &&& reservation.command@ == trim(command@)
                &&& reservation.epoch == old(self).packages.map()[id@].epoch
                &&& changed_at(old(self).command_reservations.map(), after, trim(command@))
                &&& after[trim(command@)].pair() == (id@, generation)
            },
    {
        let epoch = match self.package_generation(id, generation) {
            Ok(epoch) => epoch,
            Err(error) => {
                return Err(error);
            },
        };
        let name = trimmed(command);
        if self.commands.contains(&name) || self.command_reservations.contains(&name) {
            return Err(ExtensionError::new("command_collision", "command is already registered"));
        }
        let key = name.clone();
        self.command_reservations.insert(key, ExtensionGeneration::of(id, generation));
        Ok(CommandReservation { command: name, epoch })
    }

    /// Whether a name is reserved for a generation.
    pub open spec fn command_reserved(&self, id: Seq<char>, generation: u64, command: Seq<char>) -> bool {
        self.command_reservations.map().contains_key(command)
            && self.command_reservations.map()[command].pair() == (id, generation)
    }

    /// Commits a reserved command with what came of registering it, or drops the reservation.
    ///
    /// A command whose generation was retired in between, or whose reservation is gone, is refused as
    /// stale, and the caller takes back what it registered.
    pub fn commit_command(
        &mut self,
        id: &str,
        generation: u64,
        reservation: CommandReservation,
        handler: u64,
        registered: Result<(), CommandOutcome>,
    ) -> (out: Committed<()>)
        requires
            old(self).wf(),
        ensures
            final(self).wf(),
            *final(self) == (ExtensionRuntime {
                packages: final(self).packages,
                commands: final(self).commands,
                command_reservations: final(self).command_reservations,
                ..*old(self)
            }),
            final(self).command_reservations.map() == old(self).command_reservations.map().remove(
                reservation.command@,
            ),
            out.result is Err ==> final(self).packages == old(self).packages
                && final(self).commands == old(self).commands,
            match registered {
                Err(outcome) => !out.undo && (out.result matches Err(e) && (outcome
                    matches CommandOutcome::Failed { code, message } ==> e.is(code@, message@))
                    && (!(outcome is Failed) ==> e.is(
                    "command_registry"@,
                    "extension command registration was rejected"@,
                ))),
                Ok(_) => {
                    let command = reservation.command@;
                    let valid = old(self).active(id@, generation);
                    let reserved = old(self).command_reserved(id@, generation, command);
                    let taken = old(self).commands.map().contains_key(command);
                    &&& out.undo <==> out.result is Err
                    &&& out.result is Ok <==> is_package_id(id@) && valid && reserved && !taken
                    &&& !is_package_id(id@) ==> (out.result matches Err(e) && e.is(
                        "invalid_extension_id"@,
                        "invalid extension package id"@,
                    ))
                    &&& is_package_id(id@) && !(valid && reserved) ==> (out.result matches Err(e)
                        && e.is("stale_generation"@, "extension generation is stale"@))
                    &&& is_package_id(id@) && valid && reserved && taken ==> (out.result
                        matches Err(e) && e.is(
                        "command_collision"@,
                        "command is already registered"@,
                    ))
                    &&& out.result is Ok ==> {
                        let packages = final(self).packages.map();
                        let commands = final(self).commands.map();
                        &&& changed_at(old(self).packages.map(), packages, id@)
                        &&& with_command(old(self).packages.map()[id@], packages[id@], command)
                        &&& changed_at(old(self).commands.map(), commands, command)
                        &&& commands[command].generation.pair() == (id@, generation)
                        &&& commands[command].epoch == reservation.epoch
                        &&& commands[command].handler == handler
                    }
                },
            },
    {
        let CommandReservation { command, epoch } = reservation;
        let reserved = match self.command_reservations.remove(&command) {
            Some(holder) => holder.is(id, generation),
            None => false,
        };
        match registered {
            Err(outcome) => {
                return Committed { result: Err(command_outcome_error(outcome)), undo: false };
            },
            Ok(()) => {},
        }
        match ExtensionPackageId::new(id) {
            Err(error) => {
                return Committed { result: Err(error), undo: true };
            },
            Ok(_) => {},
        }
        let valid = self.validate_package_state(id, generation).is_ok();
        if !valid || !reserved {
            return Committed {
                result: Err(
                    ExtensionError::new("stale_generation", "extension generation is stale"),
                ),
                undo: true,
            };
        }
        if self.commands.contains(&command) {
            return Committed {
                result: Err(
                    ExtensionError::new("command_collision", "command is already registered"),
                ),
                undo: true,
            };
        }
        let key = key_of(id);
        match self.packages.remove(&key) {
            None => {},
            Some(mut package) => {
                package.commands.insert(&command);
                self.packages.insert(key, package);
                proof {
                    let before = old(self).packages.map();
                    let after = self.packages.map();
                    assert(after =~= before.insert(id@, after[id@]));
                }
            },
        }
        self.commands.insert(
            command,
            ExtensionCommandRecord {
                generation: ExtensionGeneration::of(id, generation),
                epoch,
                handler,
            },
        );
        Committed { result: Ok(()), undo: false }
    }
}

/// A command that is registered is listed with its package, and nothing else of the package changes.
pub proof fn registered_commands_are_listed(
    before: PackageState,
    after: PackageState,
    command: Seq<char>,
    other: Seq<char>,
)
    requires
        with_command(before, after, command),
    ensures
        after.commands.set().contains(command),
        other != command ==> (after.commands.set().contains(other)
            <==> before.commands.set().contains(other)),
        after.events == before.events,
        after.generation == before.generation,
        after.enabled == before.enabled,
        after.epoch == before.epoch,
{
}

/// A command is reserved for the generation that reserved it, and for no other.
pub proof fn reservations_are_of_one_generation(
    host: ExtensionRuntime,
    id: Seq<char>,
    generation: u64,
    command: Seq<char>,
)
    ensures
        host.command_reserved(id, generation, command) <==> {
            let holder = host.command_reservations.map()[command];
            &&& host.command_reservations.map().contains_key(command)
            &&& holder.extension_id@ == id
            &&& holder.generation == generation
        },
{
}

}
