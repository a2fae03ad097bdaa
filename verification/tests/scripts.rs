use bootty_app::extensions::announcements::publish_registry_changed;
use bootty_app::extensions::command::{Caller, CommandInvocation};
use bootty_app::extensions::descriptor::{
    lua_descriptor, ArgumentDraft, DescriptorDraft, MutationClass, ValueType,
};
use bootty_app::extensions::error::CommandOutcome;
use bootty_app::extensions::json::{Json, JsonNumber};
use bootty_app::extensions::lua_host::{
    data_request, event_request, host_api, invoke_request, lua_invocation_context, poll_request,
    prepare_request, read_request, script_context, script_outcome, CommandDraft, DataDraft,
    EventDraft, HostData, PrepareDraft, PrepareRequest,
};
use bootty_app::extensions::lua_value::{lua_arguments, lua_value_to_json, Lua, LuaTable, TargetDraft};
use bootty_app::extensions::luau::{
    await_call, check_module_name, entry_point_name, entry_point_source, handler_failed, interrupt,
    load_failed, lua_command_result, module_extension, module_source, send_call, source_refused,
    reload_source, validate_luau_source, CallReply, CallStep, LuauRegistration, RegistrationPhase,
    SendResult, WorkerReply,
};
use bootty_app::extensions::runtime::EXTENSION_FILE_BYTES;

fn table(entries: Vec<(Lua, Lua)>) -> LuaTable {
    LuaTable { entries }
}

fn text(value: &str) -> Lua {
    Lua::Text(value.to_owned())
}

#[test]
fn sources_are_compiled_before_they_are_used() {
    validate_luau_source("local answer = 42\nreturn answer", "sample.extension").unwrap();
    let error = validate_luau_source("local = = 1", "sample.extension").unwrap_err();
    assert!(!error.message.is_empty());
    assert_ne!(error.message, "local = = 1");
}

#[test]
fn tables_become_objects_and_arrays() {
    let heap = vec![
        table(vec![(text("list"), Lua::Table(1)), (text("flag"), Lua::Boolean(true))]),
        table(vec![
            (Lua::Integer(2), text("two")),
            (Lua::Integer(1), Lua::Integer(-1)),
        ]),
    ];
    let Json::Object(fields) = lua_value_to_json(&heap, &Lua::Table(0)).unwrap() else {
        panic!("a table with names is an object");
    };
    assert_eq!(fields[0].0, "flag");
    assert_eq!(fields[1].0, "list");
    let Json::Array(items) = &fields[1].1 else {
        panic!("a table with indices is an array");
    };
    assert!(matches!(items[0], Json::Number(JsonNumber::Negative(-1))));
    assert!(matches!(&items[1], Json::Text(t) if t == "two"));
}

#[test]
fn tables_that_are_no_json_are_refused() {
    let cyclic = vec![table(vec![(text("self"), Lua::Table(0))])];
    assert_eq!(
        lua_value_to_json(&cyclic, &Lua::Table(0)).unwrap_err(),
        "Luau result contains a cyclic table"
    );
    let mixed = vec![table(vec![(text("a"), Lua::Nil), (Lua::Integer(1), Lua::Nil)])];
    assert_eq!(
        lua_value_to_json(&mixed, &Lua::Table(0)).unwrap_err(),
        "Luau result tables cannot mix string and array keys"
    );
    let gap = vec![table(vec![(Lua::Integer(2), Lua::Boolean(true))])];
    assert_eq!(
        lua_value_to_json(&gap, &Lua::Table(0)).unwrap_err(),
        "Luau result array keys must be contiguous from 1"
    );
    let wide: Vec<(Lua, Lua)> =
        (1..=4096).map(|i| (Lua::Integer(i), Lua::Boolean(true))).collect();
    assert_eq!(
        lua_value_to_json(&vec![table(wide)], &Lua::Table(0)).unwrap_err(),
        "Luau result exceeds the node limit"
    );
    let deep: Vec<LuaTable> =
        (0..40).map(|i| table(vec![(text("next"), Lua::Table(i + 1))])).collect();
    assert_eq!(
        lua_value_to_json(&deep, &Lua::Table(0)).unwrap_err(),
        "Luau result exceeds the nesting depth limit"
    );
}

#[test]
fn arguments_are_scalars() {
    let heap = vec![table(vec![
        (Lua::Integer(1), text("a")),
        (Lua::Integer(2), Lua::Integer(7)),
        (Lua::Integer(3), Lua::Boolean(false)),
    ])];
    assert_eq!(lua_arguments(&heap, &Lua::Table(0)).unwrap(), vec!["a", "7", "false"]);
    assert!(lua_arguments(&heap, &Lua::Nil).unwrap().is_empty());
}

fn target(kind: &str, generation: Lua) -> TargetDraft {
    TargetDraft {
        kind: Ok(kind.to_owned()),
        generation,
        handle: Ok("h".to_owned()),
    }
}

#[test]
fn requests_of_scripts_report_the_first_wrong_part() {
    let heap = Vec::new();
    let invocation = invoke_request(
        &heap,
        CommandDraft {
            command: Ok("sample.echo".to_owned()),
            arguments: Lua::Nil,
            target: Some(target("session", Lua::Integer(3))),
        },
    )
    .unwrap();
    assert_eq!(invocation.caller, Caller::Luau);
    assert_eq!(invocation.target.unwrap().generation, 3);
    let error = event_request(
        &heap,
        EventDraft {
            topic: Err("topic is missing".to_owned()),
            payload: Lua::Other("function".to_owned()),
            target: None,
        },
    )
    .unwrap_err();
    assert_eq!(error, "topic is missing");
    let error = event_request(
        &heap,
        EventDraft {
            topic: Ok("changed".to_owned()),
            payload: Lua::Nil,
            target: Some(target("nowhere", Lua::Integer(1))),
        },
    )
    .unwrap_err();
    assert_eq!(error, "unknown target kind nowhere");
}

#[test]
fn requests_of_scripts_have_defaults() {
    assert_eq!(poll_request(Ok("s".to_owned()), None).unwrap(), ("s".to_owned(), 0));
    assert_eq!(read_request(None, None), (0, 256));
    assert_eq!(read_request(Some(4), Some(2)), (4, 2));
    let heap = Vec::new();
    let draft = |operation: Option<&str>| PrepareDraft {
        path: Ok("/root/a".to_owned()),
        operation: Ok(operation.map(str::to_owned)),
        contents: DataDraft::Bytes(b"x".to_vec()),
    };
    assert!(matches!(
        prepare_request(&heap, draft(None)).unwrap(),
        PrepareRequest::Write { contents: HostData::Bytes(b), .. } if b == b"x"
    ));
    assert!(matches!(
        prepare_request(&heap, draft(Some("remove"))).unwrap(),
        PrepareRequest::Remove { .. }
    ));
    assert_eq!(
        prepare_request(&heap, draft(Some("append"))).unwrap_err(),
        "unsupported file operation"
    );
    assert!(matches!(
        data_request(&heap, DataDraft::Value(Lua::Boolean(true))).unwrap(),
        HostData::Json(Json::Bool(true))
    ));
}

#[test]
fn scripts_are_told_what_became_of_a_command() {
    let ok = CommandOutcome::Success { value: "1".to_owned() };
    assert_eq!(script_outcome(ok).unwrap(), "1");
    let failed = CommandOutcome::Failed { code: "code".to_owned(), message: "why".to_owned() };
    assert_eq!(script_outcome(failed).unwrap_err(), "code: why");
    let denied = CommandOutcome::Denied { message: "no".to_owned() };
    assert_eq!(script_outcome(denied).unwrap_err(), "denied: no");
    assert_eq!(
        script_outcome(CommandOutcome::ConfirmationRequired).unwrap_err(),
        "confirmation_required: command requires confirmation"
    );
}

#[test]
fn scripts_see_who_they_are() {
    let context = script_context("sample.extension", 3, false, true);
    assert_eq!(context.scope, "extension:sample.extension:3");
    assert!(context.cancelled);
    let call = lua_invocation_context(
        CommandInvocation {
            command: "sample.echo".to_owned(),
            arguments: vec!["a".to_owned()],
            caller: Caller::Cli,
            target: None,
            confirmation: None,
        },
        3,
    );
    assert_eq!(call.extension_id, "sample");
    assert_eq!(call.caller, "cli");
    let names = host_api();
    assert_eq!(names.len(), 36);
    assert!(names.contains(&("files", "prepare")));
}

fn descriptor(mutation: Option<&str>) -> DescriptorDraft {
    DescriptorDraft {
        id: "sample.echo".to_owned(),
        title: "Echo".to_owned(),
        description: String::new(),
        mutation: mutation.map(str::to_owned),
        arguments: vec![ArgumentDraft {
            name: "value".to_owned(),
            value_type: Some("integer".to_owned()),
            required: None,
            choices: Vec::new(),
            minimum: None,
            maximum: None,
            default: None,
            repeated: None,
        }],
        aliases: Vec::new(),
        result_schema: None,
        targets: Vec::new(),
        availability: None,
        target: None,
        palette: None,
        palette_metadata: None,
    }
}

#[test]
fn commands_are_described_by_scripts() {
    let described = lua_descriptor(descriptor(None)).unwrap();
    assert_eq!(described.mutation, MutationClass::Read);
    assert_eq!(described.arguments[0].value_type, ValueType::Integer);
    let error = lua_descriptor(descriptor(Some("sometimes"))).unwrap_err();
    assert_eq!(error, "mutation must be read, write, or destructive");
}

#[test]
fn registrations_that_fail_are_cleaned_up() {
    let registration =
        LuauRegistration::new().replied(WorkerReply::Registered { events: 1, commands: 2 });
    assert_eq!(registration.phase, RegistrationPhase::Event(0));
    let registration = registration.advance(Ok(()));
    assert_eq!(registration.phase, RegistrationPhase::Command(0));
    let registration = registration.advance(Ok(()));
    let error = bootty_app::extensions::error::ExtensionError::new("command_collision", "taken");
    let registration = registration.advance(Err(error));
    assert_eq!(registration.phase, RegistrationPhase::StopAndCleanUp);
    assert_eq!(registration.failure.unwrap().code, "command_collision");
    let timed_out = LuauRegistration::new().replied(WorkerReply::TimedOut);
    assert_eq!(timed_out.phase, RegistrationPhase::StopAndCleanUp);
    let stopped = LuauRegistration::new().replied(WorkerReply::Stopped);
    assert_eq!(stopped.phase, RegistrationPhase::Stop);
}

#[test]
fn compiled_code_is_no_source() {
    let error = validate_luau_source("\u{3}\u{1}\u{7ff}\u{7f}", "sample.extension").unwrap_err();
    assert!(error.message.contains("binary chunk"));
    assert!(validate_luau_source("\u{0}", "sample.extension").is_err());
    validate_luau_source("\t\nreturn 1", "sample.extension").unwrap();
}

#[test]
fn modules_stay_inside_their_package() {
    check_module_name("lib/util").unwrap();
    assert_eq!(check_module_name("../other").unwrap_err(), "module path traversal denied");
    assert_eq!(check_module_name("").unwrap_err(), "invalid module name");
    assert_eq!(entry_point_name(&None).unwrap(), "main.luau");
    assert!(interrupt(false, false).is_none());
    assert!(interrupt(true, false).is_some());
}

#[test]
fn the_host_tells_of_commands() {
    let event = publish_registry_changed("registered", "sample.extension", 2, "sample.echo");
    assert_eq!(event.topic, "command.registry_changed");
    let Json::Object(fields) = event.content else {
        panic!("an event says what happened");
    };
    assert_eq!(fields[0].0, "command");
    assert!(matches!(&fields[1].1, Json::Text(t) if t == "registered"));
}

#[test]
fn failures_of_scripts_have_codes() {
    assert_eq!(source_refused("a syntax error").code, "luau_syntax_invalid");
    assert_eq!(source_refused("too many locals").code, "luau_load_failed");
    assert_eq!(load_failed("x: deadline_exceeded").code, "luau_registration_timeout");
    assert_eq!(load_failed("x: cancelled").code, "cancelled");
    assert_eq!(load_failed("oops").code, "luau_load_failed");
    assert_eq!(handler_failed("x: deadline_exceeded").code, "deadline_exceeded");
    assert_eq!(handler_failed("x: cancelled").code, "cancelled");
    assert_eq!(handler_failed("oops").code, "luau_handler_failed");
    assert_eq!(handler_failed("oops").message, "oops");
}

#[test]
fn modules_lie_within_their_package() {
    let source = module_source("/pack", Some("/pack/lib/a.luau"), Ok(b"return 1".to_vec()));
    assert_eq!(source.unwrap(), "return 1");
    let missing = module_source("/pack", None, Ok(Vec::new())).unwrap_err();
    assert_eq!(missing, "module not found");
    let outside = module_source("/pack", Some("/package/a.luau"), Ok(Vec::new())).unwrap_err();
    assert_eq!(outside, "module path escapes package root");
    let large = vec![b' '; EXTENSION_FILE_BYTES + 1];
    let large = module_source("/pack", Some("/pack/a.luau"), Ok(large)).unwrap_err();
    assert_eq!(large, "module exceeds host read limit");
    let binary = module_source("/pack", Some("/pack/a.luau"), Ok(vec![0xff])).unwrap_err();
    assert_eq!(binary, "module is not valid UTF-8");
    let unread = module_source("/pack", Some("/pack/a.luau"), Err("denied".to_owned()));
    assert_eq!(unread.unwrap_err(), "denied");
    assert_eq!(module_extension(true, true), None);
    assert_eq!(module_extension(false, true), Some("luau"));
    assert_eq!(module_extension(false, false), Some("lua"));
}

#[test]
fn entry_points_are_checked() {
    let ok = |text: &str| -> Result<String, String> { Ok(text.to_owned()) };
    let bad = |text: &str| -> Result<String, String> { Err(text.to_owned()) };
    let bytes = |bytes: &[u8]| -> Result<Vec<u8>, String> { Ok(bytes.to_vec()) };
    let refused = |root, named: Option<&str>, resolved, content| {
        let named = named.map(str::to_owned);
        let error = entry_point_source(root, &named, resolved, content).unwrap_err();
        (error.code, error.message)
    };
    let script = || ok("/pack/main.luau");
    let code = |root, named, resolved, content| refused(root, named, resolved, content).0;
    assert_eq!(
        refused(bad("m"), Some("../x"), script(), bytes(b"x")),
        ("extension_source_missing".to_owned(), "m".to_owned())
    );
    assert_eq!(
        refused(ok("/pack"), Some("../x"), script(), bytes(b"x")),
        ("extension_entrypoint_denied".to_owned(), "entrypoint traversal denied".to_owned())
    );
    assert_eq!(
        code(ok("/pack"), None, bad("m"), bytes(b"x")),
        "extension_entrypoint_missing"
    );
    assert_eq!(
        refused(ok("/pack"), None, ok("/package/main.luau"), bytes(b"x")),
        ("extension_entrypoint_denied".to_owned(), "entrypoint escapes package root".to_owned())
    );
    assert_eq!(
        code(ok("/pack"), None, script(), Err("m".to_owned())),
        "extension_entrypoint_read_failed"
    );
    let large = vec![b' '; EXTENSION_FILE_BYTES + 1];
    assert_eq!(code(ok("/pack"), None, script(), Ok(large)), "extension_entrypoint_too_large");
    assert_eq!(
        code(ok("/pack"), None, script(), bytes(b"\xff")),
        "extension_entrypoint_invalid"
    );
    let read = entry_point_source(ok("/pack"), &None, script(), bytes(b"= x"));
    assert_eq!(read.unwrap(), "= x");
    let unread = reload_source("sample", ok("/pack"), &None, script(), bytes(b"= x"));
    assert_eq!(unread.unwrap_err().code, "luau_syntax_invalid");
    let read = reload_source("sample", ok("/pack"), &None, script(), bytes(b"return 1"));
    assert_eq!(read.unwrap(), "return 1");
}

#[test]
fn calls_end_with_a_result_or_an_error() {
    let code = |step: CallStep| match step {
        CallStep::Done(Err(error)) => error.code,
        CallStep::Done(Ok(value)) => value,
        CallStep::Again => "again".to_owned(),
        CallStep::Sent => "sent".to_owned(),
    };
    assert_eq!(code(send_call(true, true, SendResult::Sent)), "cancelled");
    assert_eq!(code(send_call(false, true, SendResult::Sent)), "deadline_exceeded");
    assert_eq!(code(send_call(false, false, SendResult::Sent)), "sent");
    assert_eq!(code(send_call(false, false, SendResult::Full)), "again");
    assert_eq!(code(send_call(false, false, SendResult::Disconnected)), "luau_worker_stopped");
    let result = || CallReply::Result(Ok("1".to_owned()));
    assert_eq!(code(await_call(true, result(), false)), "deadline_exceeded");
    assert_eq!(code(await_call(false, result(), true)), "1");
    assert_eq!(code(await_call(false, CallReply::Timeout, true)), "cancelled");
    assert_eq!(code(await_call(false, CallReply::Timeout, false)), "again");
    assert_eq!(code(await_call(false, CallReply::Disconnected, false)), "luau_worker_stopped");
}

#[test]
fn outcomes_reach_scripts_as_text() {
    let text = |outcome: CommandOutcome| lua_command_result(outcome).unwrap_err();
    let m = || "m".to_owned();
    assert_eq!(lua_command_result(CommandOutcome::Success { value: m() }).unwrap(), "m");
    assert_eq!(text(CommandOutcome::Pending), "pending: command is still pending");
    assert_eq!(text(CommandOutcome::Unsupported { message: m() }), "unsupported: m");
    assert_eq!(text(CommandOutcome::Unavailable { message: m() }), "unavailable: m");
    assert_eq!(text(CommandOutcome::Denied { message: m() }), "denied: m");
    assert_eq!(text(CommandOutcome::StaleTarget { message: m() }), "stale_target: m");
    assert_eq!(text(CommandOutcome::Ambiguous { message: m() }), "ambiguous: m");
    assert_eq!(
        text(CommandOutcome::ConfirmationRequired),
        "confirmation_required: command requires confirmation"
    );
    assert_eq!(text(CommandOutcome::Failed { code: "c".to_owned(), message: m() }), "c: m");
}
