//! What the host offers to scripts: the functions that a script finds, how it hands values to them,
//! and what it gets back.
//!
//! A value that a script hands over is a draft: each part that has to be a string was either read or
//! was not, and the first part that is wrong is what the script is told.

use vstd::prelude::*;
use super::command::{caller_name, lua_caller_name, target_id, Caller, CommandInvocation, CommandTarget, TargetId};
use super::error::CommandOutcome;
use super::ids::scope_text;
use super::json::Json;
use super::lua_value::{
    converted, json_view, lua_arguments, lua_target_from_value, lua_value_to_json, scalar_texts,
    target_given, JsonView, Lua, LuaTable, TargetDraft,
};
use super::output::EXTENSION_PROCESS_LINES;
use super::runtime::FileTransaction;
use crate::table::Table;
use crate::text::{decimal, decimal_text, join, same_text, split, split_on, texts};

verus! {

/// The functions that a script finds, by table and name.
pub open spec fn host_names() -> Seq<(Seq<char>, Seq<char>)> {
    seq![
        ("commands"@, "invoke"@),
        ("commands"@, "context"@),
        ("events"@, "publish"@),
        ("events"@, "subscribe"@),
        ("events"@, "poll"@),
        ("events"@, "unsubscribe"@),
        ("storage"@, "get"@),
        ("storage"@, "put"@),
        ("storage"@, "delete"@),
        ("storage"@, "list"@),
        ("tasks"@, "start"@),
        ("tasks"@, "status"@),
        ("tasks"@, "cancel"@),
        ("tasks"@, "finish"@),
        ("process"@, "spawn"@),
        ("process"@, "write"@),
        ("process"@, "read"@),
        ("process"@, "status"@),
        ("process"@, "signal"@),
        ("process"@, "wait"@),
        ("ipc"@, "publish"@),
        ("ipc"@, "subscribe"@),
        ("ipc"@, "poll"@),
        ("metadata"@, "get"@),
        ("metadata"@, "publish"@),
        ("host"@, "observe"@),
        ("notify"@, "show"@),
        ("files"@, "read"@),
        ("files"@, "exists"@),
        ("files"@, "stat"@),
        ("files"@, "validate_confirmation"@),
        ("files"@, "apply"@),
        ("files"@, "prepare"@),
        ("ui.surface"@, "open"@),
        ("ui.surface"@, "close"@),
        ("ui.surface"@, "list"@),
    ]
}

/// The names of a list of functions.
pub open spec fn name_views(names: Seq<(&'static str, &'static str)>) -> Seq<(Seq<char>, Seq<char>)> {
    names.map_values(|n: (&'static str, &'static str)| (n.0@, n.1@))
}

/// The functions that a script finds, by table and name.
pub fn host_api() -> (out: Vec<(&'static str, &'static str)>)
    ensures
        name_views(out@) == host_names(),
{
    let out: Vec<(&'static str, &'static str)> = vec![
        ("commands", "invoke"),
        ("commands", "context"),
        ("events", "publish"),
        ("events", "subscribe"),
        ("events", "poll"),
        ("events", "unsubscribe"),
        ("storage", "get"),
        ("storage", "put"),
        ("storage", "delete"),
        ("storage", "list"),
        ("tasks", "start"),
        ("tasks", "status"),
        ("tasks", "cancel"),
        ("tasks", "finish"),
        ("process", "spawn"),
        ("process", "write"),
        ("process", "read"),
        ("process", "status"),
        ("process", "signal"),
        ("process", "wait"),
        ("ipc", "publish"),
        ("ipc", "subscribe"),
        ("ipc", "poll"),
        ("metadata", "get"),
        ("metadata", "publish"),
        ("host", "observe"),
        ("notify", "show"),
        ("files", "read"),
        ("files", "exists"),
        ("files", "stat"),
        ("files", "validate_confirmation"),
        ("files", "apply"),
        ("files", "prepare"),
        ("ui.surface", "open"),
        ("ui.surface", "close"),
        ("ui.surface", "list"),
    ];
    assert(name_views(out@) =~= host_names());
    out
}

/// The text of a part that was read, or why it was not.
pub open spec fn text_given(part: Result<String, String>) -> Result<Seq<char>, Seq<char>> {
    match part {
        Ok(text) => Ok(text@),
        Err(message) => Err(message@),
    }
}

/// The JSON form of a value of a script.
pub open spec fn json_given(heap: Seq<LuaTable>, value: Lua) -> Result<JsonView, Seq<char>> {
    converted(heap, value, 0, 0, Set::empty()).0
}

/// The target that a script gives, where it gives one.
pub open spec fn target_option(draft: Option<TargetDraft>) -> Result<Option<TargetId>, Seq<char>> {
    match draft {
        None => Ok(None),
        Some(given) => match target_given(given) {
            Ok(id) => Ok(Some(id)),
            Err(message) => Err(message),
        },
    }
}

/// The arguments that a script gives a command.
pub open spec fn arguments_given(heap: Seq<LuaTable>, value: Lua) -> Result<
    Seq<Seq<char>>,
    Seq<char>,
> {
    match value {
        Lua::Table(at) => if at < heap.len() {
            scalar_texts(heap[at as int].entries@, 1, i64::MAX as int)
        } else {
            Ok(Seq::empty())
        },
        _ => Ok(Seq::empty()),
    }
}

/// A command, as a script asks for it.
#[derive(Debug)]
pub struct CommandDraft {
    pub command: Result<String, String>,
    pub arguments: Lua,
    pub target: Option<TargetDraft>,
}

/// The command, its arguments and its target, or the first part that is wrong.
pub open spec fn command_given(heap: Seq<LuaTable>, draft: CommandDraft) -> Result<
    (Seq<char>, Seq<Seq<char>>, Option<TargetId>),
    Seq<char>,
> {
    match (
        text_given(draft.command),
        arguments_given(heap, draft.arguments),
        target_option(draft.target),
    ) {
        (Err(message), _, _) => Err(message),
        (_, Err(message), _) => Err(message),
        (_, _, Err(message)) => Err(message),
        (Ok(command), Ok(arguments), Ok(target)) => Ok((command, arguments, target)),
    }
}

/// The call that a script asks for. Scripts call under their own name, and without a confirmation.
pub fn invoke_request(heap: &Vec<LuaTable>, draft: CommandDraft) -> (out: Result<
    CommandInvocation,
    String,
>)
    ensures
        match command_given(heap@, draft) {
            Err(message) => out matches Err(e) && e@ == message,
            Ok((command, arguments, target)) => out matches Ok(invocation) && {
                &&& invocation.command@ == command
                &&& texts(invocation.arguments@) == arguments
                &&& target_id(invocation.target) == target
                &&& invocation.caller == Caller::Luau
                &&& invocation.confirmation is None
            },
        },
{
    let CommandDraft { command, arguments, target } = draft;
    let command = match command {
        Ok(command) => command,
        Err(message) => {
            return Err(message);
        },
    };
    let arguments = match lua_arguments(heap, &arguments) {
        Ok(list) => {
            assert(list@.len() == 0 ==> texts(list@) =~= Seq::<Seq<char>>::empty());
            list
        },
        Err(message) => {
            return Err(message);
        },
    };
    match lua_target_from_value(target) {
        Err(message) => Err(message),
        Ok(target) => Ok(
            CommandInvocation {
                command,
                arguments,
                caller: Caller::Luau,
                target,
                confirmation: None,
            },
        ),
    }
}

/// What a script gets of a command: its result, or a text that begins with the kind of failure.
pub open spec fn outcome_for_script(outcome: CommandOutcome) -> Result<Seq<char>, Seq<char>> {
    match outcome {
        CommandOutcome::Success { value } => Ok(value@),
        CommandOutcome::Pending => Err("pending: command is still pending"@),
        CommandOutcome::Unsupported { message } => Err("unsupported: "@ + message@),
        CommandOutcome::Unavailable { message } => Err("unavailable: "@ + message@),
        CommandOutcome::Denied { message } => Err("denied: "@ + message@),
        CommandOutcome::StaleTarget { message } => Err("stale_target: "@ + message@),
        CommandOutcome::Ambiguous { message } => Err("ambiguous: "@ + message@),
        CommandOutcome::ConfirmationRequired => Err(
            "confirmation_required: command requires confirmation"@,
        ),
        CommandOutcome::Failed { code, message } => Err(code@ + ": "@ + message@),
    }
}

/// What a script gets of a command.
pub fn script_outcome(outcome: CommandOutcome) -> (out: Result<String, String>)
    ensures
        text_given(out) == outcome_for_script(outcome),
{
    match outcome {
        CommandOutcome::Success { value } => Ok(value),
        CommandOutcome::Pending => Err("pending: command is still pending".to_owned()),
        CommandOutcome::Unsupported { message } => Err(join("unsupported: ", &message)),
        CommandOutcome::Unavailable { message } => Err(join("unavailable: ", &message)),
        CommandOutcome::Denied { message } => Err(join("denied: ", &message)),
        CommandOutcome::StaleTarget { message } => Err(join("stale_target: ", &message)),
        CommandOutcome::Ambiguous { message } => Err(join("ambiguous: ", &message)),
        CommandOutcome::ConfirmationRequired => Err(
            "confirmation_required: command requires confirmation".to_owned(),
        ),
        CommandOutcome::Failed { code, message } => {
            let start = join(&code, ": ");
            Err(join(&start, &message))
        },
    }
}

/// What a script sees of itself.
#[derive(Debug)]
pub struct ScriptContext {
    pub extension_id: String,
    pub generation: u64,
    pub scope: String,
    pub cancelled: bool,
}

/// What a script sees of itself. It is told to stop when its generation is, or when its call is.
pub fn script_context(
    id: &str,
    generation: u64,
    generation_cancelled: bool,
    call_cancelled: bool,
) -> (out: ScriptContext)
    ensures
        out.extension_id@ == id@,
        out.generation == generation,
        out.scope@ == scope_text(id@, generation),
        out.cancelled == (generation_cancelled || call_cancelled),
{
    ScriptContext {
        extension_id: id.to_owned(),
        generation,
        scope: super::ids::extension_scope(id, generation),
        cancelled: generation_cancelled || call_cancelled,
    }
}

/// What a handler in a script sees of a call. The arguments stand under their own name and also in
/// the table itself.
#[derive(Debug)]
pub struct InvocationContext {
    pub command: String,
    pub caller: &'static str,
    pub arguments: Vec<String>,
    pub target: Option<CommandTarget>,
    /// The confirmation that the caller presents, as JSON text.
    pub confirmation: Option<String>,
    pub extension_id: String,
    pub generation: u64,
}

/// What a handler in a script sees of a call. The package is taken from the name of the command.
pub fn lua_invocation_context(invocation: CommandInvocation, generation: u64) -> (out:
    InvocationContext)
    ensures
        out.command == invocation.command,
        out.caller@ == caller_name(invocation.caller),
        out.arguments == invocation.arguments,
        out.target == invocation.target,
        out.confirmation == invocation.confirmation,
        out.extension_id@ == split_on(invocation.command@, '.')[0],
        out.generation == generation,
{
    let parts = split(&invocation.command, '.');
    assert(texts(parts@)[0] == parts@[0]@);
    let extension_id = parts[0].clone();
    let CommandInvocation { command, arguments, caller, target, confirmation } = invocation;
    InvocationContext {
        command,
        caller: lua_caller_name(caller),
        arguments,
        target,
        confirmation,
        extension_id,
        generation,
    }
}

/// An event, as a script publishes it.
#[derive(Debug)]
pub struct EventDraft {
    pub topic: Result<String, String>,
    pub payload: Lua,
    pub target: Option<TargetDraft>,
}

/// An event that a script publishes.
#[derive(Debug)]
pub struct EventRequest {
    pub topic: String,
    pub payload: Json,
    pub target: Option<CommandTarget>,
}

/// The topic, the payload and the target of an event, or the first part that is wrong.
pub open spec fn event_given(heap: Seq<LuaTable>, draft: EventDraft) -> Result<
    (Seq<char>, JsonView, Option<TargetId>),
    Seq<char>,
> {
    match (
        text_given(draft.topic),
        json_given(heap, draft.payload),
        target_option(draft.target),
    ) {
        (Err(message), _, _) => Err(message),
        (_, Err(message), _) => Err(message),
        (_, _, Err(message)) => Err(message),
        (Ok(topic), Ok(payload), Ok(target)) => Ok((topic, payload, target)),
    }
}

/// The event that a script publishes.
pub fn event_request(heap: &Vec<LuaTable>, draft: EventDraft) -> (out: Result<EventRequest, String>)
    ensures
        match event_given(heap@, draft) {
            Err(message) => out matches Err(e) && e@ == message,
            Ok((topic, payload, target)) => out matches Ok(event) && {
                &&& event.topic@ == topic
                &&& json_view(event.payload) == payload
                &&& target_id(event.target) == target
            },
        },
{
    let EventDraft { topic, payload, target } = draft;
    let topic = match topic {
        Ok(topic) => topic,
        Err(message) => {
            return Err(message);
        },
    };
    let payload = match lua_value_to_json(heap, &payload) {
        Ok(json) => json,
        Err(message) => {
            return Err(message);
        },
    };
    match lua_target_from_value(target) {
        Err(message) => Err(message),
        Ok(target) => Ok(EventRequest { topic, payload, target }),
    }
}

/// Where a script reads on in a subscription: from the beginning unless it says otherwise.
pub fn poll_request(subscription: Result<String, String>, cursor: Option<u64>) -> (out: Result<
    (String, u64),
    String,
>)
    ensures
        match subscription {
            Err(message) => out matches Err(e) && e == message,
            Ok(name) => out matches Ok(request) && request.0 == name && request.1 == (
            match cursor {
                Some(n) => n,
                None => 0,
            }),
        },
{
    match subscription {
        Err(message) => Err(message),
        Ok(name) => Ok(
            (
                name,
                match cursor {
                    Some(n) => n,
                    None => 0,
                },
            ),
        ),
    }
}

/// The task that a script finishes, and what it came to.
pub fn finish_request(heap: &Vec<LuaTable>, task: Result<String, String>, outcome: &Lua) -> (out:
    Result<(String, Json), String>)
    ensures
        match (text_given(task), json_given(heap@, *outcome)) {
            (Err(message), _) => out matches Err(e) && e@ == message,
            (_, Err(message)) => out matches Err(e) && e@ == message,
            (Ok(name), Ok(value)) => out matches Ok(request) && request.0@ == name && json_view(
                request.1,
            ) == value,
        },
{
    match task {
        Err(message) => Err(message),
        Ok(name) => match lua_value_to_json(heap, outcome) {
            Err(message) => Err(message),
            Ok(value) => Ok((name, value)),
        },
    }
}

/// Data that a script hands over: the bytes of a string, or another value.
#[derive(Debug)]
pub enum DataDraft {
    Bytes(Vec<u8>),
    Value(Lua),
}

/// Data: bytes, or a JSON value that is written out.
#[derive(Debug)]
pub enum HostData {
    Bytes(Vec<u8>),
    Json(Json),
}

/// Whether data is what a script handed over.
pub open spec fn is_data(heap: Seq<LuaTable>, draft: DataDraft, out: Result<HostData, String>) -> bool {
    match draft {
        DataDraft::Bytes(bytes) => out matches Ok(HostData::Bytes(b)) && b == bytes,
        DataDraft::Value(value) => match json_given(heap, value) {
            Ok(json) => out matches Ok(HostData::Json(j)) && json_view(j) == json,
            Err(message) => out matches Err(e) && e@ == message,
        },
    }
}

/// The data that a script hands over: strings as they are, and other values as JSON.
pub fn data_request(heap: &Vec<LuaTable>, draft: DataDraft) -> (out: Result<HostData, String>)
    ensures
        is_data(heap@, draft, out),
{
    match draft {
        DataDraft::Bytes(bytes) => Ok(HostData::Bytes(bytes)),
        DataDraft::Value(value) => match lua_value_to_json(heap, &value) {
            Ok(json) => Ok(HostData::Json(json)),
            Err(message) => Err(message),
        },
    }
}

/// How far a script reads in the output of a process: from the beginning, and all that is kept,
/// unless it says otherwise.
pub fn read_request(cursor: Option<u64>, limit: Option<usize>) -> (out: (u64, usize))
    ensures
        out.0 == (match cursor {
            Some(n) => n,
            None => 0,
        }),
        out.1 == (match limit {
            Some(n) => n,
            None => EXTENSION_PROCESS_LINES,
        }),
{
    (
        match cursor {
            Some(n) => n,
            None => 0,
        },
        match limit {
            Some(n) => n,
            None => EXTENSION_PROCESS_LINES,
        },
    )
}

/// Metadata, as a script names it.
#[derive(Debug)]
pub struct MetadataDraft {
    pub namespace: Result<String, String>,
    pub key: Result<String, String>,
    /// The value, where it is published.
    pub value: Option<Lua>,
    pub target: Option<TargetDraft>,
}

/// Metadata that a script names.
#[derive(Debug)]
pub struct MetadataRequest {
    pub namespace: String,
    pub key: String,
    pub value: Option<Json>,
    pub target: Option<CommandTarget>,
}

/// The value that a script publishes, where it publishes one.
pub open spec fn value_option(heap: Seq<LuaTable>, value: Option<Lua>) -> Result<
    Option<JsonView>,
    Seq<char>,
> {
    match value {
        None => Ok(None),
        Some(v) => match json_given(heap, v) {
            Ok(json) => Ok(Some(json)),
            Err(message) => Err(message),
        },
    }
}

/// The view of an optional JSON value.
pub open spec fn json_option(value: Option<Json>) -> Option<JsonView> {
    match value {
        Some(json) => Some(json_view(json)),
        None => None,
    }
}

/// The parts of metadata that a script names, or the first part that is wrong.
pub open spec fn metadata_given(heap: Seq<LuaTable>, draft: MetadataDraft) -> Result<
    (Seq<char>, Seq<char>, Option<JsonView>, Option<TargetId>),
    Seq<char>,
> {
    match (
        text_given(draft.namespace),
        text_given(draft.key),
        value_option(heap, draft.value),
        target_option(draft.target),
    ) {
        (Err(message), _, _, _) => Err(message),
        (_, Err(message), _, _) => Err(message),
        (_, _, Err(message), _) => Err(message),
        (_, _, _, Err(message)) => Err(message),
        (Ok(namespace), Ok(key), Ok(value), Ok(target)) => Ok((namespace, key, value, target)),
    }
}

/// The metadata that a script names.
pub fn metadata_request(heap: &Vec<LuaTable>, draft: MetadataDraft) -> (out: Result<
    MetadataRequest,
    String,
>)
    ensures
        match metadata_given(heap@, draft) {
            Err(message) => out matches Err(e) && e@ == message,
            Ok((namespace, key, value, target)) => out matches Ok(request) && {
                &&& request.namespace@ == namespace
                &&& request.key@ == key
                &&& json_option(request.value) == value
                &&& target_id(request.target) == target
            },
        },
{
    let MetadataDraft { namespace, key, value, target } = draft;
    let namespace = match namespace {
        Ok(text) => text,
        Err(message) => {
            return Err(message);
        },
    };
    let key = match key {
        Ok(text) => text,
        Err(message) => {
            return Err(message);
        },
    };
    let value = match value {
        None => None,
        Some(v) => match lua_value_to_json(heap, &v) {
            Ok(json) => Some(json),
            Err(message) => {
                return Err(message);
            },
        },
    };
    match lua_target_from_value(target) {
        Err(message) => Err(message),
        Ok(target) => Ok(MetadataRequest { namespace, key, value, target }),
    }
}

/// A file action, as a script prepares it.
#[derive(Debug)]
pub struct PrepareDraft {
    pub path: Result<String, String>,
    pub operation: Result<Option<String>, String>,
    pub contents: DataDraft,
}

/// A file action that a script prepares.
#[derive(Debug)]
pub enum PrepareRequest {
    Remove { path: String },
    Write { path: String, contents: HostData },
}

/// The file action that a script prepares: a file is written unless it is to be removed.
pub fn prepare_request(heap: &Vec<LuaTable>, draft: PrepareDraft) -> (out: Result<
    PrepareRequest,
    String,
>)
    ensures
        match (draft.path, draft.operation) {
            (Err(message), _) => out matches Err(e) && e == message,
            (_, Err(message)) => out matches Err(e) && e == message,
            (Ok(place), Ok(operation)) => {
                let name = match operation {
                    Some(text) => text@,
                    None => "write"@,
                };
                if name == "remove"@ {
                    out matches Ok(PrepareRequest::Remove { path }) && path == place
                } else if name == "write"@ {
                    match out {
                        Ok(PrepareRequest::Write { path, contents }) => path == place && is_data(
                            heap@,
                            draft.contents,
                            Ok(contents),
                        ),
                        Ok(PrepareRequest::Remove { path }) => false,
                        Err(message) => is_data(heap@, draft.contents, Err(message)),
                    }
                } else {
                    out matches Err(message) && message@ == "unsupported file operation"@
                }
            },
        },
{
    let PrepareDraft { path, operation, contents } = draft;
    let path = match path {
        Ok(path) => path,
        Err(message) => {
            return Err(message);
        },
    };
    let operation = match operation {
        Ok(Some(text)) => text,
        Ok(None) => "write".to_owned(),
        Err(message) => {
            return Err(message);
        },
    };
    if same_text(&operation, "remove") {
        return Ok(PrepareRequest::Remove { path });
    }
    if same_text(&operation, "write") {
        return match data_request(heap, contents) {
            Ok(contents) => Ok(PrepareRequest::Write { path, contents }),
            Err(message) => Err(message),
        };
    }
    Err("unsupported file operation".to_owned())
}

/// The file actions that a script prepared, under the names that it was given for them.
#[derive(Debug)]
pub struct PendingFiles {
    pub next: u64,
    pub actions: Table<String, FileTransaction>,
}

/// The name of a prepared file action.
pub open spec fn pending_name(n: u64) -> Seq<char> {
    "file-"@ + decimal(n as nat)
}

impl PendingFiles {
    /// Nothing was prepared.
    pub fn new() -> (out: Self)
        ensures
            out.next == 1,
            out.actions.wf(),
            out.actions.map() == Map::<Seq<char>, FileTransaction>::empty(),
    {
        PendingFiles { next: 1, actions: Table::new() }
    }

    /// Keeps a file action, and gives it a name. The numbers end at the largest: what is prepared then
    /// takes the place of what was prepared before.
    pub fn keep(&mut self, transaction: FileTransaction) -> (out: String)
        requires
            old(self).actions.wf(),
        ensures
            final(self).actions.wf(),
            out@ == pending_name(old(self).next),
            final(self).next == (if old(self).next < u64::MAX {
                (old(self).next + 1) as u64
            } else {
                u64::MAX
            }),
            final(self).actions.map() == old(self).actions.map().insert(out@, transaction),
    {
        let digits = decimal_text(self.next);
        let name = join("file-", &digits);
        if self.next < u64::MAX {
            self.next = self.next + 1;
        }
        self.actions.insert(name.clone(), transaction);
        name
    }
}

/// Two file actions have two names, as long as the numbers last.
pub proof fn pending_names_are_apart(a: u64, b: u64)
    requires
        pending_name(a) == pending_name(b),
    ensures
        a == b,
{
    let head = "file-"@;
    assert(decimal(a as nat) =~= pending_name(a).skip(head.len() as int));
    assert(decimal(b as nat) =~= pending_name(b).skip(head.len() as int));
    crate::text::decimal_is_injective(a as nat, b as nat);
}

/// A command that a script calls is called as it was given: by that name, with these arguments and on
/// that target. It is not called where a part of it is wrong.
pub proof fn commands_are_as_given(heap: Seq<LuaTable>, draft: CommandDraft)
    ensures
        match command_given(heap, draft) {
            Ok((command, arguments, target)) => {
                &&& draft.command matches Ok(text) && text@ == command
                &&& draft.arguments matches Lua::Table(at) ==> at < heap.len() ==> scalar_texts(
                    heap[at as int].entries@,
                    1,
                    i64::MAX as int,
                ) == Ok::<Seq<Seq<char>>, Seq<char>>(arguments)
                &&& !(draft.arguments is Table) ==> arguments.len() == 0
                &&& target is None <==> draft.target is None
                &&& draft.target matches Some(given) ==> target_given(given) == Ok::<
                    TargetId,
                    Seq<char>,
                >(target->Some_0)
            },
            Err(message) => {
                ||| draft.command matches Err(text) && text@ == message
                ||| draft.command is Ok && arguments_given(heap, draft.arguments) == Err::<
                    Seq<Seq<char>>,
                    Seq<char>,
                >(message)
                ||| draft.command is Ok && (draft.target matches Some(given) && target_given(given)
                    == Err::<TargetId, Seq<char>>(message))
            },
        },
{
}

/// An event that a script publishes goes out as it was given: on that topic, with that value and for
/// that target. It does not where a part of it is wrong.
pub proof fn events_are_as_given(heap: Seq<LuaTable>, draft: EventDraft)
    ensures
        match event_given(heap, draft) {
            Ok((topic, payload, target)) => {
                &&& draft.topic matches Ok(text) && text@ == topic
                &&& converted(heap, draft.payload, 0, 0, Set::empty()).0 == Ok::<
                    JsonView,
                    Seq<char>,
                >(payload)
                &&& target is None <==> draft.target is None
                &&& draft.target matches Some(given) ==> target_given(given) == Ok::<
                    TargetId,
                    Seq<char>,
                >(target->Some_0)
            },
            Err(message) => {
                ||| draft.topic matches Err(text) && text@ == message
                ||| draft.topic is Ok && converted(heap, draft.payload, 0, 0, Set::empty()).0
                    == Err::<JsonView, Seq<char>>(message)
                ||| draft.topic is Ok && (draft.target matches Some(given) && target_given(given)
                    == Err::<TargetId, Seq<char>>(message))
            },
        },
{
}

/// What a script records goes where it was given: under that namespace and key, with that value and for
/// that target; without a value, the record is one to be taken away. Nothing is recorded where a part of
/// it is wrong.
pub proof fn records_are_as_given(heap: Seq<LuaTable>, draft: MetadataDraft)
    ensures
        match metadata_given(heap, draft) {
            Ok((namespace, key, value, target)) => {
                &&& draft.namespace matches Ok(text) && text@ == namespace
                &&& draft.key matches Ok(text) && text@ == key
                &&& value is None <==> draft.value is None
                &&& draft.value matches Some(v) ==> converted(heap, v, 0, 0, Set::empty()).0 == Ok::<
                    JsonView,
                    Seq<char>,
                >(value->Some_0)
                &&& target is None <==> draft.target is None
                &&& draft.target matches Some(given) ==> target_given(given) == Ok::<
                    TargetId,
                    Seq<char>,
                >(target->Some_0)
            },
            Err(message) => {
                ||| draft.namespace matches Err(text) && text@ == message
                ||| draft.key matches Err(text) && text@ == message
                ||| draft.value matches Some(v) && converted(heap, v, 0, 0, Set::empty()).0 == Err::<
                    JsonView,
                    Seq<char>,
                >(message)
                ||| draft.target matches Some(given) && target_given(given) == Err::<
                    TargetId,
                    Seq<char>,
                >(message)
            },
        },
{
}

/// Only a command that succeeded hands a script a value; every other outcome is an error that begins
/// with its kind and ends with its message.
pub proof fn scripts_are_told_the_outcome(outcome: CommandOutcome)
    ensures
        outcome_for_script(outcome) is Ok <==> outcome is Success,
        outcome matches CommandOutcome::Success { value } ==> outcome_for_script(outcome) == Ok::<
            Seq<char>,
            Seq<char>,
        >(value@),
        outcome matches CommandOutcome::Failed { code, message } ==> outcome_for_script(outcome)
            == Err::<Seq<char>, Seq<char>>(code@ + ": "@ + message@),
        outcome matches CommandOutcome::Unsupported { message } ==> outcome_for_script(outcome)
            == Err::<Seq<char>, Seq<char>>("unsupported"@ + ": "@ + message@),
        outcome matches CommandOutcome::Unavailable { message } ==> outcome_for_script(outcome)
            == Err::<Seq<char>, Seq<char>>("unavailable"@ + ": "@ + message@),
        outcome matches CommandOutcome::Denied { message } ==> outcome_for_script(outcome) == Err::<
            Seq<char>,
            Seq<char>,
        >("denied"@ + ": "@ + message@),
        outcome matches CommandOutcome::StaleTarget { message } ==> outcome_for_script(outcome)
            == Err::<Seq<char>, Seq<char>>("stale_target"@ + ": "@ + message@),
        outcome matches CommandOutcome::Ambiguous { message } ==> outcome_for_script(outcome)
            == Err::<Seq<char>, Seq<char>>("ambiguous"@ + ": "@ + message@),
        outcome is Pending ==> outcome_for_script(outcome) == Err::<Seq<char>, Seq<char>>(
            "pending: command is still pending"@,
        ),
        outcome is ConfirmationRequired ==> outcome_for_script(outcome) == Err::<
            Seq<char>,
            Seq<char>,
        >("confirmation_required: command requires confirmation"@),
{
    reveal_strlit(": ");
    reveal_strlit("unsupported");
    reveal_strlit("unavailable");
    reveal_strlit("denied");
    reveal_strlit("stale_target");
    reveal_strlit("ambiguous");
    reveal_strlit("unsupported: ");
    reveal_strlit("unavailable: ");
    reveal_strlit("denied: ");
    reveal_strlit("stale_target: ");
    reveal_strlit("ambiguous: ");
    assert("unsupported: "@ =~= "unsupported"@ + ": "@);
    assert("unavailable: "@ =~= "unavailable"@ + ": "@);
    assert("denied: "@ =~= "denied"@ + ": "@);
    assert("stale_target: "@ =~= "stale_target"@ + ": "@);
    assert("ambiguous: "@ =~= "ambiguous"@ + ": "@);
}

/// Data that a script hands over as bytes arrives as these bytes, and any other value as its JSON form.
pub proof fn data_is_as_given(heap: Seq<LuaTable>, draft: DataDraft, out: Result<HostData, String>)
    requires
        is_data(heap, draft, out),
    ensures
        draft matches DataDraft::Bytes(bytes) ==> (out matches Ok(HostData::Bytes(found)) && found@
            == bytes@),
        draft matches DataDraft::Value(value) ==> match converted(
            heap,
            value,
            0,
            0,
            Set::empty(),
        ).0 {
            Ok(json) => out matches Ok(HostData::Json(found)) && json_view(found) == json,
            Err(message) => out matches Err(told) && told@ == message,
        },
{
}

/// Actions that wait for a confirmation are named after their number.
pub proof fn pending_actions_are_numbered(n: u64)
    ensures
        pending_name(n) == "file-"@ + decimal(n as nat),
{
}

}
