//! The events by which the host tells of itself.

use vstd::prelude::*;
use super::json::{Json, JsonNumber};
use super::lua_value::{field_views, json_view, object_view, JsonView};

verus! {

/// An event of the host: its topic, what it is about, and what it says.
#[derive(Debug)]
pub struct HostEvent {
    pub topic: &'static str,
    pub subject: Json,
    pub content: Json,
}

/// An object with two fields.
pub open spec fn pair_view(a: Seq<char>, x: JsonView, b: Seq<char>, y: JsonView) -> JsonView {
    JsonView::Object(seq![(a, x), (b, y)])
}

/// What an event about a generation is about.
pub open spec fn generation_subject(id: Seq<char>, generation: u64) -> JsonView {
    pair_view(
        "extension_id"@,
        JsonView::Text(id),
        "generation"@,
        JsonView::Number(JsonNumber::Natural(generation)),
    )
}

fn pair(a: &str, x: Json, b: &str, y: Json) -> (out: Json)
    ensures
        json_view(out) == pair_view(a@, json_view(x), b@, json_view(y)),
{
    let fields = vec![(a.to_owned(), x), (b.to_owned(), y)];
    proof {
        object_view(fields);
        assert(field_views(fields@) =~= seq![(a@, json_view(x)), (b@, json_view(y))]);
    }
    Json::Object(fields)
}

fn single(a: &str, x: Json) -> (out: Json)
    ensures
        json_view(out) == JsonView::Object(seq![(a@, json_view(x))]),
{
    let fields = vec![(a.to_owned(), x)];
    proof {
        object_view(fields);
        assert(field_views(fields@) =~= seq![(a@, json_view(x))]);
    }
    Json::Object(fields)
}

fn text(value: &str) -> (out: Json)
    ensures
        json_view(out) == JsonView::Text(value@),
{
    Json::Text(value.to_owned())
}

fn generation_of(id: &str, generation: u64) -> (out: Json)
    ensures
        json_view(out) == generation_subject(id@, generation),
{
    pair("extension_id", text(id), "generation", Json::Number(JsonNumber::Natural(generation)))
}

/// A command came or went.
pub fn publish_registry_changed(operation: &str, id: &str, generation: u64, command: &str) -> (out:
    HostEvent)
    ensures
        out.topic@ == "command.registry_changed"@,
        json_view(out.subject) == generation_subject(id@, generation),
        json_view(out.content) == pair_view(
            "command"@,
            JsonView::Text(command@),
            "operation"@,
            JsonView::Text(operation@),
        ),
{
    HostEvent {
        topic: "command.registry_changed",
        subject: generation_of(id, generation),
        content: pair("command", text(command), "operation", text(operation)),
    }
}

/// A surface came or went.
pub fn publish_surface_lifecycle(operation: &str, surface: Json, id: &str, generation: u64) -> (out:
    HostEvent)
    ensures
        out.topic@ == "extension.reloaded"@,
        json_view(out.subject) == generation_subject(id@, generation),
        json_view(out.content) == pair_view(
            "operation"@,
            JsonView::Text(operation@),
            "surface"@,
            json_view(surface),
        ),
{
    HostEvent {
        topic: "extension.reloaded",
        subject: generation_of(id, generation),
        content: pair("operation", text(operation), "surface", surface),
    }
}

/// A command tells how far it is.
pub fn publish_progress(command: &str, value: Json) -> (out: HostEvent)
    ensures
        out.topic@ == "task.changed"@,
        json_view(out.subject) == JsonView::Object(seq![("command"@, JsonView::Text(command@))]),
        json_view(out.content) == JsonView::Object(seq![("progress"@, json_view(value))]),
{
    HostEvent {
        topic: "task.changed",
        subject: single("command", text(command)),
        content: single("progress", value),
    }
}

/// A generation came or went. The state of the host goes with it.
pub fn lifecycle_announcement(operation: &str, id: &str, generation: u64, snapshot: Json) -> (out:
    HostEvent)
    ensures
        out.topic@ == "extension.reloaded"@,
        json_view(out.subject) == generation_subject(id@, generation),
        json_view(out.content) == JsonView::Object(
            seq![
                ("extension_id"@, JsonView::Text(id@)),
                ("generation"@, JsonView::Number(JsonNumber::Natural(generation))),
                ("operation"@, JsonView::Text(operation@)),
                ("snapshot"@, json_view(snapshot)),
            ],
        ),
{
    let fields = vec![
        ("extension_id".to_owned(), text(id)),
        ("generation".to_owned(), Json::Number(JsonNumber::Natural(generation))),
        ("operation".to_owned(), text(operation)),
        ("snapshot".to_owned(), snapshot),
    ];
    proof {
        object_view(fields);
        assert(field_views(fields@) =~= seq![
            ("extension_id"@, JsonView::Text(id@)),
            ("generation"@, JsonView::Number(JsonNumber::Natural(generation))),
            ("operation"@, JsonView::Text(operation@)),
            ("snapshot"@, json_view(snapshot)),
        ]);
    }
    HostEvent {
        topic: "extension.reloaded",
        subject: generation_of(id, generation),
        content: Json::Object(fields),
    }
}

/// What is announced of a generation names its package and its number.
pub proof fn announcements_name_the_generation(id: Seq<char>, generation: u64)
    ensures
        generation_subject(id, generation) == JsonView::Object(
            seq![
                ("extension_id"@, JsonView::Text(id)),
                ("generation"@, JsonView::Number(JsonNumber::Natural(generation))),
            ],
        ),
{
}

}
