//! Running the scripts of packages: checking sources, registering what they offer, and calling them.

use vstd::prelude::*;
use vstd::utf8::{decode_utf8, encode_utf8, valid_utf8};
use super::error::{CommandOutcome, ExtensionError};
use super::ids::ExtensionGeneration;
use super::packages::changed_at;
use super::runtime::{key_of, refused_by, ExtensionRuntime, LuaWorker, EXTENSION_FILE_BYTES};
use crate::outside::{compile_luau, decode_exact, luau_refusal};
use crate::path::{is_within, lies_within, split_of_joined};
use crate::text::{
    contains, has_part, join, occurs_at, parts_end_at_separators, same_text, split, split_on, text_opt,
    texts,
};

verus! {

/// Checks that a source compiles. `id` names it in messages.
pub fn validate_luau_source(source: &str, id: &str) -> (out: Result<(), ExtensionError>)
    ensures
        match luau_refusal(source@, id@) {
            None => out is Ok,
            Some(message) => out matches Err(e) && e.is(refusal_code(message), message),
        },
{
    match compile_luau(source, id) {
        Ok(()) => Ok(()),
        Err(message) => Err(source_refused(&message)),
    }
}

/// The code of a source that does not compile.
pub open spec fn refusal_code(message: Seq<char>) -> Seq<char> {
    if contains(message, "syntax"@) {
        "luau_syntax_invalid"@
    } else {
        "luau_load_failed"@
    }
}

/// The error of a source that does not compile.
pub fn source_refused(message: &str) -> (out: ExtensionError)
    ensures
        out.is(refusal_code(message@), message@),
{
    if has_part(message, "syntax") {
        ExtensionError::new("luau_syntax_invalid", message)
    } else {
        ExtensionError::new("luau_load_failed", message)
    }
}

/// The code of a failure while a package was loaded.
pub open spec fn load_code(message: Seq<char>) -> Seq<char> {
    if contains(message, "deadline_exceeded"@) {
        "luau_registration_timeout"@
    } else if contains(message, "cancelled"@) {
        "cancelled"@
    } else {
        "luau_load_failed"@
    }
}

/// The error of a package that could not be loaded.
pub fn load_failed(message: &str) -> (out: ExtensionError)
    ensures
        out.is(load_code(message@), message@),
{
    if has_part(message, "deadline_exceeded") {
        ExtensionError::new("luau_registration_timeout", message)
    } else if has_part(message, "cancelled") {
        ExtensionError::new("cancelled", message)
    } else {
        ExtensionError::new("luau_load_failed", message)
    }
}

/// The code of a failure in a handler.
pub open spec fn handler_code(message: Seq<char>) -> Seq<char> {
    if contains(message, "deadline_exceeded"@) {
        "deadline_exceeded"@
    } else if contains(message, "cancelled"@) {
        "cancelled"@
    } else {
        "luau_handler_failed"@
    }
}

/// The error of a handler that failed.
pub fn handler_failed(message: &str) -> (out: ExtensionError)
    ensures
        out.is(handler_code(message@), message@),
{
    if has_part(message, "deadline_exceeded") {
        ExtensionError::new("deadline_exceeded", message)
    } else if has_part(message, "cancelled") {
        ExtensionError::new("cancelled", message)
    } else {
        ExtensionError::new("luau_handler_failed", message)
    }
}

/// Why a running script is interrupted; `None` where it goes on.
pub fn interrupt(cancelled: bool, expired: bool) -> (out: Option<&'static str>)
    ensures
        cancelled ==> (out matches Some(s) && s@ == "cancelled"@),
        !cancelled && expired ==> (out matches Some(s) && s@ == "deadline_exceeded"@),
        !cancelled && !expired ==> out is None,
{
    if cancelled {
        Some("cancelled")
    } else if expired {
        Some("deadline_exceeded")
    } else {
        None
    }
}

/// Whether a path goes up anywhere.
pub open spec fn goes_up(path: Seq<char>) -> bool {
    split_on(path, '/').contains(".."@)
}

/// Whether a path goes up anywhere.
pub fn path_goes_up(path: &str) -> (out: bool)
    ensures
        out == goes_up(path@),
{
    let parts = split(path, '/');
    let mut i: usize = 0;
    while i < parts.len()
        invariant
            i <= parts@.len(),
            texts(parts@) == split_on(path@, '/'),
            forall|j: int| 0 <= j < i ==> (#[trigger] parts@[j])@ != ".."@,
        decreases parts@.len() - i,
    {
        if same_text(&parts[i], "..") {
            assert(texts(parts@)[i as int] == ".."@);
            return true;
        }
        i = i + 1;
    }
    proof {
        if texts(parts@).contains(".."@) {
            let j = choose|j: int| 0 <= j < texts(parts@).len() && texts(parts@)[j] == ".."@;
            assert(parts@[j]@ == ".."@);
        }
    }
    false
}

/// Checks the name of a module that a script asks for.
pub fn check_module_name(name: &str) -> (out: Result<(), &'static str>)
    ensures
        match out {
            Ok(_) => name@.len() > 0 && encode_utf8(name@).len() <= 128 && !goes_up(name@),
            Err(message) => if name@.len() == 0 || encode_utf8(name@).len() > 128 {
                message@ == "invalid module name"@
            } else {
                goes_up(name@) && message@ == "module path traversal denied"@
            },
        },
{
    if name.is_empty() || name.as_bytes().len() > 128 {
        return Err("invalid module name");
    }
    if path_goes_up(name) {
        return Err("module path traversal denied");
    }
    Ok(())
}

/// The source of a module that a script asks for, or why there is none. `resolved` is where the module
/// lies, where it was found, and `content` what was read there.
pub fn module_source(root: &str, resolved: Option<&str>, content: Result<Vec<u8>, String>) -> (out:
    Result<String, String>)
    ensures
        match resolved {
            None => out matches Err(e) && e@ == "module not found"@,
            Some(path) => if !lies_within(path@, root@) {
                out matches Err(e) && e@ == "module path escapes package root"@
            } else {
                match content {
                    Err(message) => out matches Err(e) && e == message,
                    Ok(bytes) => if bytes@.len() > EXTENSION_FILE_BYTES {
                        out matches Err(e) && e@ == "module exceeds host read limit"@
                    } else if !valid_utf8(bytes@) {
                        out matches Err(e) && e@ == "module is not valid UTF-8"@
                    } else {
                        out matches Ok(source) && source@ == decode_utf8(bytes@)
                    },
                }
            },
        },
{
    let path = match resolved {
        Some(path) => path,
        None => {
            return Err("module not found".to_owned());
        },
    };
    if !is_within(path, root) {
        return Err("module path escapes package root".to_owned());
    }
    match content {
        Err(message) => Err(message),
        Ok(bytes) => {
            if bytes.len() > EXTENSION_FILE_BYTES {
                return Err("module exceeds host read limit".to_owned());
            }
            match decode_exact(bytes) {
                Ok(source) => Ok(source),
                Err(_) => Err("module is not valid UTF-8".to_owned()),
            }
        },
    }
}

/// The extension that is added to the name of a module; `None` where the name has one already.
pub fn module_extension(has_extension: bool, luau_exists: bool) -> (out: Option<&'static str>)
    ensures
        has_extension ==> out is None,
        !has_extension && luau_exists ==> (out matches Some(s) && s@ == "luau"@),
        !has_extension && !luau_exists ==> (out matches Some(s) && s@ == "lua"@),
{
    if has_extension {
        None
    } else if luau_exists {
        Some("luau")
    } else {
        Some("lua")
    }
}

/// The entry script of a package: the one that its manifest names, or the usual one.
pub open spec fn entry_name(named: Option<Seq<char>>) -> Seq<char> {
    match named {
        Some(name) => name,
        None => "main.luau"@,
    }
}

/// Checks the name of a package's entry script, and gives it.
pub fn entry_point_name(named: &Option<String>) -> (out: Result<String, ExtensionError>)
    ensures
        match out {
            Ok(name) => name@ == entry_name(text_opt(*named)) && !goes_up(name@),
            Err(e) => goes_up(entry_name(text_opt(*named))) && e.is(
                "extension_entrypoint_denied"@,
                "entrypoint traversal denied"@,
            ),
        },
{
    let name = match named {
        Some(name) => name.clone(),
        None => "main.luau".to_owned(),
    };
    if path_goes_up(&name) {
        Err(ExtensionError::new("extension_entrypoint_denied", "entrypoint traversal denied"))
    } else {
        Ok(name)
    }
}

/// Why the entry script of a package cannot be used; `None` where it can. `root` is where the package
/// lies, `resolved` where its script lies, and `content` what was read there, each with the message
/// of the error where there is one.
pub open spec fn entry_refusal(
    root: Result<String, String>,
    named: Option<String>,
    resolved: Result<String, String>,
    content: Result<Vec<u8>, String>,
) -> Option<(Seq<char>, Seq<char>)> {
    match root {
        Err(message) => Some(("extension_source_missing"@, message@)),
        Ok(root) => if goes_up(entry_name(text_opt(named))) {
            Some(("extension_entrypoint_denied"@, "entrypoint traversal denied"@))
        } else {
            match resolved {
                Err(message) => Some(("extension_entrypoint_missing"@, message@)),
                Ok(path) => if !lies_within(path@, root@) {
                    Some(("extension_entrypoint_denied"@, "entrypoint escapes package root"@))
                } else {
                    match content {
                        Err(message) => Some(("extension_entrypoint_read_failed"@, message@)),
                        Ok(bytes) => if bytes@.len() > EXTENSION_FILE_BYTES {
                            Some(
                                (
                                    "extension_entrypoint_too_large"@,
                                    "entrypoint exceeds host limit"@,
                                ),
                            )
                        } else if !valid_utf8(bytes@) {
                            Some(("extension_entrypoint_invalid"@, "entrypoint is not UTF-8"@))
                        } else {
                            None
                        },
                    }
                },
            }
        },
    }
}

/// The text of a package's entry script, or why it cannot be used.
pub fn entry_point_source(
    root: Result<String, String>,
    named: &Option<String>,
    resolved: Result<String, String>,
    content: Result<Vec<u8>, String>,
) -> (out: Result<String, ExtensionError>)
    ensures
        out is Ok <==> entry_refusal(root, *named, resolved, content) is None,
        refused_by(out, entry_refusal(root, *named, resolved, content)),
        out matches Ok(source) ==> source@ == decode_utf8(content->Ok_0@),
{
    let root = match root {
        Ok(root) => root,
        Err(message) => {
            return Err(ExtensionError::new("extension_source_missing", &message));
        },
    };
    match entry_point_name(named) {
        Ok(_) => {},
        Err(error) => {
            return Err(error);
        },
    }
    let path = match resolved {
        Ok(path) => path,
        Err(message) => {
            return Err(ExtensionError::new("extension_entrypoint_missing", &message));
        },
    };
    if !is_within(&path, &root) {
        return Err(
            ExtensionError::new("extension_entrypoint_denied", "entrypoint escapes package root"),
        );
    }
    let bytes = match content {
        Ok(bytes) => bytes,
        Err(message) => {
            return Err(ExtensionError::new("extension_entrypoint_read_failed", &message));
        },
    };
    if bytes.len() > EXTENSION_FILE_BYTES {
        return Err(
            ExtensionError::new("extension_entrypoint_too_large", "entrypoint exceeds host limit"),
        );
    }
    match decode_exact(bytes) {
        Ok(source) => Ok(source),
        Err(_) => Err(
            ExtensionError::new("extension_entrypoint_invalid", "entrypoint is not UTF-8"),
        ),
    }
}

/// The text of the entry script with which a package is to be reloaded: before the running one is
/// retired, the new one has to compile.
pub fn reload_source(
    id: &str,
    root: Result<String, String>,
    named: &Option<String>,
    resolved: Result<String, String>,
    content: Result<Vec<u8>, String>,
) -> (out: Result<String, ExtensionError>)
    ensures
        refused_by(out, entry_refusal(root, *named, resolved, content)),
        entry_refusal(root, *named, resolved, content) is None ==> {
            let source = decode_utf8(content->Ok_0@);
            match luau_refusal(source, id@) {
                None => out matches Ok(text) && text@ == source,
                Some(message) => out matches Err(e) && e.is(refusal_code(message), message),
            }
        },
{
    match entry_point_source(root, named, resolved, content) {
        Err(error) => Err(error),
        Ok(source) => match validate_luau_source(&source, id) {
            Err(error) => Err(error),
            Ok(()) => Ok(source),
        },
    }
}

/// What a thread that runs a package's scripts reports.
#[derive(Debug)]
pub enum WorkerReply {
    /// The scripts ran; how many topics and commands they registered.
    Registered { events: usize, commands: usize },
    Failed(ExtensionError),
    TimedOut,
    Stopped,
}

/// Where the registration of a package stands.
#[derive(Clone, Copy, Debug, PartialEq, Eq, Structural)]
pub enum RegistrationPhase {
    /// The thread's report is awaited.
    Reply,
    /// The topic with the given number is to be registered.
    Event(usize),
    /// The command with the given number is to be registered.
    Command(usize),
    /// The package is registered.
    Finished,
    /// The thread is to be stopped.
    Stop,
    /// The thread is to be stopped, and what was registered is to be cleaned up.
    StopAndCleanUp,
}

/// The registration of a package's topics and commands: all of them, or none.
#[derive(Debug)]
pub struct LuauRegistration {
    pub events: usize,
    pub commands: usize,
    pub phase: RegistrationPhase,
    pub failure: Option<ExtensionError>,
}

impl LuauRegistration {
    /// What comes after `events` topics and `commands` commands were registered.
    pub open spec fn upcoming(self, events: nat, commands: nat) -> RegistrationPhase {
        if events < self.events {
            RegistrationPhase::Event(events as usize)
        } else if commands < self.commands {
            RegistrationPhase::Command(commands as usize)
        } else {
            RegistrationPhase::Finished
        }
    }

    /// How many topics and commands were registered.
    pub open spec fn registered(self) -> nat {
        match self.phase {
            RegistrationPhase::Event(n) => n as nat,
            RegistrationPhase::Command(n) => self.events as nat + n as nat,
            _ => 0,
        }
    }

    /// A registration whose thread was just started.
    pub fn new() -> (out: Self)
        ensures
            out.phase is Reply,
            out.failure is None,
            out.events == 0,
            out.commands == 0,
    {
        LuauRegistration {
            events: 0,
            commands: 0,
            phase: RegistrationPhase::Reply,
            failure: None,
        }
    }

    fn following(&self, events: usize, commands: usize) -> (out: RegistrationPhase)
        ensures
            out == self.upcoming(events as nat, commands as nat),
    {
        if events < self.events {
            RegistrationPhase::Event(events)
        } else if commands < self.commands {
            RegistrationPhase::Command(commands)
        } else {
            RegistrationPhase::Finished
        }
    }

    /// Takes the report of the thread. One that ran out of time takes the whole generation with it.
    pub fn replied(self, reply: WorkerReply) -> (out: Self)
        requires
            self.phase is Reply,
        ensures
            match reply {
                WorkerReply::Registered { events, commands } => {
                    &&& out.events == events
                    &&& out.commands == commands
                    &&& out.failure is None
                    &&& out.phase == out.upcoming(0, 0)
                },
                WorkerReply::Failed(error) => {
                    &&& out.events == self.events
                    &&& out.commands == self.commands
                    &&& out.failure == Some(error)
                    &&& out.phase == (if error.code@ == "luau_registration_timeout"@ {
                        RegistrationPhase::StopAndCleanUp
                    } else {
                        RegistrationPhase::Stop
                    })
                },
                WorkerReply::TimedOut => {
                    &&& out.failure matches Some(e) && e.is(
                        "luau_registration_timeout"@,
                        "Luau package did not register in time"@,
                    )
                    &&& out.events == self.events
                    &&& out.commands == self.commands
                    &&& out.phase is StopAndCleanUp
                },
                WorkerReply::Stopped => {
                    &&& out.failure matches Some(e) && e.is(
                        "luau_worker_stopped"@,
                        "Luau registration worker stopped before publishing its descriptor"@,
                    )
                    &&& out.events == self.events
                    &&& out.commands == self.commands
                    &&& out.phase is Stop
                },
            },
    {
        match reply {
            WorkerReply::Registered { events, commands } => {
                let mut next = LuauRegistration {
                    events,
                    commands,
                    phase: RegistrationPhase::Finished,
                    failure: None,
                };
                next.phase = next.following(0, 0);
                next
            },
            WorkerReply::Failed(error) => {
                let phase = if same_text(&error.code, "luau_registration_timeout") {
                    RegistrationPhase::StopAndCleanUp
                } else {
                    RegistrationPhase::Stop
                };
                LuauRegistration { phase, failure: Some(error), ..self }
            },
            WorkerReply::TimedOut => LuauRegistration {
                phase: RegistrationPhase::StopAndCleanUp,
                failure: Some(
                    ExtensionError::new(
                        "luau_registration_timeout",
                        "Luau package did not register in time",
                    ),
                ),
                ..self
            },
            WorkerReply::Stopped => LuauRegistration {
                phase: RegistrationPhase::Stop,
                failure: Some(
                    ExtensionError::new(
                        "luau_worker_stopped",
                        "Luau registration worker stopped before publishing its descriptor",
                    ),
                ),
                ..self
            },
        }
    }

    /// Whether `out` is this registration after one more topic or command.
    pub open spec fn advanced(self, result: Result<(), ExtensionError>, out: Self) -> bool {
        match (self.phase, result) {
            (RegistrationPhase::Event(n), Ok(_)) => out == (LuauRegistration {
                phase: self.upcoming(n as nat + 1, 0),
                ..self
            }),
            (RegistrationPhase::Command(n), Ok(_)) => out == (LuauRegistration {
                phase: self.upcoming(self.events as nat, n as nat + 1),
                ..self
            }),
            (RegistrationPhase::Event(_), Err(error)) | (
                RegistrationPhase::Command(_),
                Err(error),
            ) => out == (LuauRegistration {
                phase: if self.registered() > 0 {
                    RegistrationPhase::StopAndCleanUp
                } else {
                    RegistrationPhase::Stop
                },
                failure: Some(error),
                ..self
            }),
            _ => out == self,
        }
    }

    /// Takes what came of registering the next topic or command. After a failure, what was registered
    /// before is cleaned up.
    pub fn advance(self, result: Result<(), ExtensionError>) -> (out: Self)
        requires
            self.phase matches RegistrationPhase::Event(n) ==> n < self.events,
            self.phase matches RegistrationPhase::Command(n) ==> n < self.commands,
        ensures
            self.advanced(result, out),
    {
        match self.phase {
            RegistrationPhase::Event(n) => match result {
                Ok(()) => {
                    let phase = self.following(n + 1, 0);
                    LuauRegistration { phase, ..self }
                },
                Err(error) => {
                    let phase = if n > 0 {
                        RegistrationPhase::StopAndCleanUp
                    } else {
                        RegistrationPhase::Stop
                    };
                    LuauRegistration { phase, failure: Some(error), ..self }
                },
            },
            RegistrationPhase::Command(n) => match result {
                Ok(()) => {
                    let phase = self.following(self.events, n + 1);
                    LuauRegistration { phase, ..self }
                },
                Err(error) => {
                    let phase = if self.events > 0 || n > 0 {
                        RegistrationPhase::StopAndCleanUp
                    } else {
                        RegistrationPhase::Stop
                    };
                    LuauRegistration { phase, failure: Some(error), ..self }
                },
            },
            _ => self,
        }
    }
}

/// A registration that fails leaves nothing behind: where something was registered, the generation is
/// cleaned up.
pub proof fn registration_is_all_or_nothing(
    registration: LuauRegistration,
    error: ExtensionError,
    out: LuauRegistration,
)
    requires
        registration.phase is Event || registration.phase is Command,
        registration.advanced(Err(error), out),
    ensures
        out.failure == Some(error),
        registration.registered() > 0 ==> out.phase is StopAndCleanUp,
        registration.registered() == 0 ==> out.phase is Stop,
{
}

impl ExtensionRuntime {
    /// Records a thread that is about to run a package's scripts, and gives the package's directory.
    pub fn register_luau_package(&mut self, id: &str, generation: u64, worker: &str) -> (out: Result<
        String,
        ExtensionError,
    >)
        requires
            old(self).wf(),
        ensures
            final(self).wf(),
            *final(self) == (ExtensionRuntime { lua_workers: final(self).lua_workers, ..*old(self) }),
            refused_by(out, old(self).refusal(id@, generation)),
            old(self).refusal(id@, generation) is None ==> match old(
                self,
            ).packages.map()[id@].source {
                None => out matches Err(e) && e.is(
                    "extension_source_missing"@,
                    "extension source is not linked"@,
                ),
                Some(source) => {
                    let after = final(self).lua_workers.map();
                    &&& out matches Ok(root) && root@ == source@
                    &&& changed_at(old(self).lua_workers.map(), after, worker@)
                    &&& after[worker@].generation.pair() == (id@, generation)
                },
            },
            out is Err ==> *final(self) == *old(self),
    {
        match self.package_generation(id, generation) {
            Err(error) => {
                return Err(error);
            },
            Ok(_) => {},
        }
        match self.package_source_root(id) {
            Err(error) => Err(error),
            Ok(root) => {
                self.lua_workers.insert(
                    key_of(worker),
                    LuaWorker { generation: ExtensionGeneration::of(id, generation) },
                );
                Ok(root)
            },
        }
    }

    /// Forgets a thread that ran a package's scripts.
    pub fn remove_lua_worker(&mut self, worker: &str)
        requires
            old(self).wf(),
        ensures
            final(self).wf(),
            *final(self) == (ExtensionRuntime { lua_workers: final(self).lua_workers, ..*old(self) }),
            final(self).lua_workers.map() == old(self).lua_workers.map().remove(worker@),
    {
        let key = key_of(worker);
        let _ = self.lua_workers.remove(&key);
    }
}

/// What a call of a script came to while it was sent or waited for.
#[derive(Debug)]
pub enum CallStep {
    /// Try again, or go on waiting.
    Again,
    /// The call was sent.
    Sent,
    /// The call ended; the value is JSON text.
    Done(Result<String, ExtensionError>),
}

/// What came of sending a call to a script's thread.
#[derive(Clone, Copy, Debug, PartialEq, Eq, Structural)]
pub enum SendResult {
    Sent,
    Full,
    Disconnected,
}

/// Whether a step is the end of a call with an error.
pub open spec fn call_failed(step: CallStep, code: Seq<char>, message: Seq<char>) -> bool {
    step matches CallStep::Done(Err(e)) && e.is(code, message)
}

/// One attempt to send a call to a script's thread.
pub fn send_call(cancelled: bool, expired: bool, sent: SendResult) -> (out: CallStep)
    ensures
        if cancelled {
            call_failed(out, "cancelled"@, "Luau command was cancelled"@)
        } else if expired {
            call_failed(out, "deadline_exceeded"@, "Luau command deadline expired"@)
        } else {
            match sent {
                SendResult::Sent => out is Sent,
                SendResult::Full => out is Again,
                SendResult::Disconnected => call_failed(
                    out,
                    "luau_worker_stopped"@,
                    "Luau worker stopped"@,
                ),
            }
        },
{
    if cancelled {
        return CallStep::Done(Err(ExtensionError::new("cancelled", "Luau command was cancelled")));
    }
    if expired {
        return CallStep::Done(
            Err(ExtensionError::new("deadline_exceeded", "Luau command deadline expired")),
        );
    }
    match sent {
        SendResult::Sent => CallStep::Sent,
        SendResult::Full => CallStep::Again,
        SendResult::Disconnected => CallStep::Done(
            Err(ExtensionError::new("luau_worker_stopped", "Luau worker stopped")),
        ),
    }
}

/// What a caller that waits for a script's result got.
#[derive(Debug)]
pub enum CallReply {
    Result(Result<String, ExtensionError>),
    Disconnected,
    Timeout,
}

/// One look for the result of a call.
pub fn await_call(expired: bool, reply: CallReply, cancelled: bool) -> (out: CallStep)
    ensures
        if expired {
            call_failed(out, "deadline_exceeded"@, "Luau command deadline expired"@)
        } else {
            match reply {
                CallReply::Result(result) => out == CallStep::Done(result),
                CallReply::Disconnected => call_failed(
                    out,
                    "luau_worker_stopped"@,
                    "Luau worker stopped"@,
                ),
                CallReply::Timeout => if cancelled {
                    call_failed(out, "cancelled"@, "Luau command was cancelled"@)
                } else {
                    out is Again
                },
            }
        },
{
    if expired {
        return CallStep::Done(
            Err(ExtensionError::new("deadline_exceeded", "Luau command deadline expired")),
        );
    }
    match reply {
        CallReply::Result(result) => CallStep::Done(result),
        CallReply::Disconnected => CallStep::Done(
            Err(ExtensionError::new("luau_worker_stopped", "Luau worker stopped")),
        ),
        CallReply::Timeout => if cancelled {
            CallStep::Done(Err(ExtensionError::new("cancelled", "Luau command was cancelled")))
        } else {
            CallStep::Again
        },
    }
}

/// What a script that called a command gets: the value as JSON text, or the text of an error.
pub open spec fn script_result(outcome: CommandOutcome) -> Result<Seq<char>, Seq<char>> {
    match outcome {
        CommandOutcome::Success { value } => Ok(value@),
        CommandOutcome::Pending => Err("pending: command is still pending"@),
        CommandOutcome::Unsupported { message } => Err("unsupported: "@ + message@),
        CommandOutcome::Unavailable { message } => Err("unavailable: "@ + message@),
        CommandOutcome::Denied { message } => Err("denied: "@ + message@),
        CommandOutcome::StaleTarget { message } => Err("stale_target: "@ + message@),
        CommandOutcome::Ambiguous { message } => Err("ambiguous: "@ + message@),
        CommandOutcome::ConfirmationRequired => Err(
            "confirmation_required: command requires confirmation"@,
        ),
        CommandOutcome::Failed { code, message } => Err(code@ + ": "@ + message@),
    }
}

/// What a script that called a command gets.
pub fn lua_command_result(outcome: CommandOutcome) -> (out: Result<String, String>)
    ensures
        match out {
            Ok(value) => script_result(outcome) == Ok::<Seq<char>, Seq<char>>(value@),
            Err(text) => script_result(outcome) == Err::<Seq<char>, Seq<char>>(text@),
        },
{
    match outcome {
        CommandOutcome::Success { value } => Ok(value),
        CommandOutcome::Pending => Err("pending: command is still pending".to_owned()),
        CommandOutcome::Unsupported { message } => Err(join("unsupported: ", &message)),
        CommandOutcome::Unavailable { message } => Err(join("unavailable: ", &message)),
        CommandOutcome::Denied { message } => Err(join("denied: ", &message)),
        CommandOutcome::StaleTarget { message } => Err(join("stale_target: ", &message)),
        CommandOutcome::Ambiguous { message } => Err(join("ambiguous: ", &message)),
        CommandOutcome::ConfirmationRequired => Err(
            "confirmation_required: command requires confirmation".to_owned(),
        ),
        CommandOutcome::Failed { code, message } => {
            let head = join(&code, ": ");
            Err(join(&head, &message))
        },
    }
}

proof fn stands_in(before: Seq<char>, word: Seq<char>, after: Seq<char>)
    ensures
        contains(before + word + after, word),
{
    let n = before.len() as int;
    let all = before + word + after;
    assert(all.subrange(n, n + word.len()) =~= word);
    assert(occurs_at(all, word, n));
}

/// A message that speaks of a deadline stands for a timeout, one that speaks of being cancelled for a
/// cancellation, and any other for a failure of the script.
pub proof fn failures_are_told_apart(before: Seq<char>, after: Seq<char>, message: Seq<char>)
    ensures
        load_code(before + "deadline_exceeded"@ + after) == "luau_registration_timeout"@,
        handler_code(before + "deadline_exceeded"@ + after) == "deadline_exceeded"@,
        !contains(before + "cancelled"@ + after, "deadline_exceeded"@) ==> {
            &&& load_code(before + "cancelled"@ + after) == "cancelled"@
            &&& handler_code(before + "cancelled"@ + after) == "cancelled"@
        },
        !contains(message, "deadline_exceeded"@) && !contains(message, "cancelled"@) ==> {
            &&& load_code(message) == "luau_load_failed"@
            &&& handler_code(message) == "luau_handler_failed"@
        },
        refusal_code(before + "syntax"@ + after) == "luau_syntax_invalid"@,
        !contains(message, "syntax"@) ==> refusal_code(message) == "luau_load_failed"@,
{
    stands_in(before, "deadline_exceeded"@, after);
    stands_in(before, "cancelled"@, after);
    stands_in(before, "syntax"@, after);
}

/// A path goes up exactly where two dots stand as a name in it.
pub proof fn two_dots_go_up(before: Seq<char>, after: Seq<char>, name: Seq<char>)
    requires
        !name.contains('/'),
    ensures
        goes_up(before + "/../"@ + after),
        goes_up("../"@ + after),
        goes_up(before + "/.."@),
        goes_up(name) <==> name == ".."@,
{
    reveal_strlit("/../");
    reveal_strlit("../");
    reveal_strlit("/..");
    reveal_strlit("..");
    assert(!".."@.contains('/'));
    let tail = ".."@ + seq!['/'] + after;
    let parts = split_on(before, '/');
    parts_end_at_separators(".."@, after, '/');
    parts_end_at_separators(name, after, '/');
    assert(before + "/../"@ + after =~= before.push('/') + tail);
    split_of_joined(before, tail, '/');
    assert((parts + split_on(tail, '/'))[parts.len() as int] == ".."@);
    assert("../"@ + after =~= tail);
    assert(split_on(tail, '/')[0] == ".."@);
    assert(before + "/.."@ =~= before.push('/') + ".."@);
    split_of_joined(before, ".."@, '/');
    assert((parts + split_on(".."@, '/'))[parts.len() as int] == ".."@);
    assert(split_on(name, '/')[0] == name);
}

/// The source of a package is taken only from a file within the package, under a name that does not go
/// up, that is no larger than the host reads and is text; then it is taken.
pub proof fn sources_stay_in_their_package(
    root: Result<String, String>,
    named: Option<String>,
    resolved: Result<String, String>,
    content: Result<Vec<u8>, String>,
)
    ensures
        entry_refusal(root, named, resolved, content) is None <==> {
            &&& root is Ok
            &&& named matches Some(name) ==> !goes_up(name@)
            &&& resolved is Ok
            &&& lies_within(resolved->Ok_0@, root->Ok_0@)
            &&& content is Ok
            &&& content->Ok_0@.len() <= 524288
            &&& valid_utf8(content->Ok_0@)
        },
{
    reveal_strlit("main.luau");
    reveal_strlit("..");
    let name = "main.luau"@;
    assert(!name.contains('/'));
    parts_end_at_separators(name, Seq::empty(), '/');
    if goes_up(name) {
        let i = choose|i: int| 0 <= i < split_on(name, '/').len() && split_on(name, '/')[i] == ".."@;
        assert(split_on(name, '/')[i] == name);
        assert(name.len() == 9);
    }
}

/// A package that registers offers its events first and then its commands, each once and in order, and is
/// finished when it has offered all of them. Where one is refused, it stops; where others had been
/// taken, they are taken back.
pub proof fn registration_goes_in_order(
    now: LuauRegistration,
    then: LuauRegistration,
    result: Result<(), ExtensionError>,
)
    requires
        now.phase matches RegistrationPhase::Event(n) ==> n < now.events,
        now.phase matches RegistrationPhase::Command(n) ==> n < now.commands,
        now.advanced(result, then),
    ensures
        then.events == now.events,
        then.commands == now.commands,
        result is Ok ==> match now.phase {
            RegistrationPhase::Event(n) => if n + 1 < now.events {
                then.phase == RegistrationPhase::Event((n + 1) as usize)
            } else if now.commands > 0 {
                then.phase == RegistrationPhase::Command(0)
            } else {
                then.phase is Finished
            },
            RegistrationPhase::Command(n) => if n + 1 < now.commands {
                then.phase == RegistrationPhase::Command((n + 1) as usize)
            } else {
                then.phase is Finished
            },
            _ => then.phase == now.phase,
        },
        result matches Err(error) ==> match now.phase {
            RegistrationPhase::Event(n) => {
                &&& then.failure == Some(error)
                &&& n == 0 ==> then.phase is Stop
                &&& n > 0 ==> then.phase is StopAndCleanUp
            },
            RegistrationPhase::Command(n) => {
                &&& then.failure == Some(error)
                &&& n == 0 && now.events == 0 ==> then.phase is Stop
                &&& n > 0 || now.events > 0 ==> then.phase is StopAndCleanUp
            },
            _ => then.phase == now.phase,
        },
{
}

/// Only a call that succeeded hands a script a value; every other outcome is an error that begins with its
/// kind and ends with its message.
pub proof fn results_reach_the_script(outcome: CommandOutcome)
    ensures
        script_result(outcome) is Ok <==> outcome is Success,
        outcome matches CommandOutcome::Success { value } ==> script_result(outcome) == Ok::<
            Seq<char>,
            Seq<char>,
        >(value@),
        outcome matches CommandOutcome::Failed { code, message } ==> script_result(outcome)
            == Err::<Seq<char>, Seq<char>>(code@ + ": "@ + message@),
        outcome matches CommandOutcome::Unsupported { message } ==> script_result(outcome) == Err::<
            Seq<char>,
            Seq<char>,
        >("unsupported: "@ + message@),
        outcome matches CommandOutcome::Unavailable { message } ==> script_result(outcome) == Err::<
            Seq<char>,
            Seq<char>,
        >("unavailable: "@ + message@),
        outcome matches CommandOutcome::Denied { message } ==> script_result(outcome) == Err::<
            Seq<char>,
            Seq<char>,
        >("denied: "@ + message@),
        outcome matches CommandOutcome::StaleTarget { message } ==> script_result(outcome) == Err::<
            Seq<char>,
            Seq<char>,
        >("stale_target: "@ + message@),
        outcome matches CommandOutcome::Ambiguous { message } ==> script_result(outcome) == Err::<
            Seq<char>,
            Seq<char>,
        >("ambiguous: "@ + message@),
        outcome is Pending ==> script_result(outcome) == Err::<Seq<char>, Seq<char>>(
            "pending: command is still pending"@,
        ),
        outcome is ConfirmationRequired ==> script_result(outcome) == Err::<Seq<char>, Seq<char>>(
            "confirmation_required: command requires confirmation"@,
        ),
{
}

}
