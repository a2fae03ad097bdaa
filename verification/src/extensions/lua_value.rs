//! Values that scripts hand over, and what they are in JSON.
//!
//! A script's tables may refer to each other in any way. They are handed over as a list, in which a
//! value refers to a table by its position.

use vstd::prelude::*;
use super::command::CommandTarget;
use super::json::{Json, JsonNumber};
use super::descriptor::{find_resource_kind, resource_kind_named};
use crate::text::{
    all_digits, decimal, decimal_reads_back, decimal_text, join, number, parse_number, same_text, texts,
};
use crate::text_set::{
    comes_before, text_lt, text_lt_irreflexive, text_lt_total, text_lt_transitive,
};

verus! {

/// How deep tables may be nested.
pub const LUA_RESULT_MAX_DEPTH: usize = 32;

/// How many values a result may hold.
pub const LUA_RESULT_MAX_NODES: usize = 4096;

/// A value of a script.
#[derive(Debug)]
pub enum Lua {
    Nil,
    Boolean(bool),
    Integer(i64),
    /// A number in binary64 form.
    Number(LuaNumber),
    Text(String),
    /// A string that is not UTF-8; the text is that of the error.
    BadText(String),
    /// A table, by its position.
    Table(usize),
    /// A function or another thing without a JSON form.
    Other(String),
}

/// A number in binary64 form: its bits, its decimal text, and, where it is not negative, its whole
/// part as far as that fits.
#[derive(Debug)]
pub struct LuaNumber {
    pub bits: u64,
    pub text: String,
    pub natural: Option<u64>,
}

/// A table: its keys and values in the order in which the script's language gives them.
#[derive(Debug)]
pub struct LuaTable {
    pub entries: Vec<(Lua, Lua)>,
}

/// A JSON value, as its texts.
pub enum JsonView {
    Null,
    Bool(bool),
    Number(JsonNumber),
    Text(Seq<char>),
    Array(Seq<JsonView>),
    Object(Seq<(Seq<char>, JsonView)>),
}

/// A JSON value, as its texts.
pub open spec fn json_view(value: Json) -> JsonView
    decreases value,
{
    match value {
        Json::Null => JsonView::Null,
        Json::Bool(b) => JsonView::Bool(b),
        Json::Number(n) => JsonView::Number(n),
        Json::Text(s) => JsonView::Text(s@),
        Json::Array(items) => JsonView::Array(
            Seq::new(
                items@.len(),
                |i: int|
                    if 0 <= i < items@.len() {
                        json_view(items@[i])
                    } else {
                        JsonView::Null
                    },
            ),
        ),
        Json::Object(fields) => JsonView::Object(
            Seq::new(
                fields@.len(),
                |i: int|
                    if 0 <= i < fields@.len() {
                        (fields@[i].0@, json_view(fields@[i].1))
                    } else {
                        (Seq::empty(), JsonView::Null)
                    },
            ),
        ),
    }
}

/// The views of a list of values.
pub open spec fn json_views(items: Seq<Json>) -> Seq<JsonView> {
    items.map_values(|j: Json| json_view(j))
}

/// The views of a list of fields.
pub open spec fn field_views(fields: Seq<(String, Json)>) -> Seq<(Seq<char>, JsonView)> {
    fields.map_values(|f: (String, Json)| (f.0@, json_view(f.1)))
}

/// Whether the bits of a binary64 number are those of a finite one.
pub open spec fn is_finite(bits: u64) -> bool {
    (if bits >= 0x8000_0000_0000_0000 {
        bits - 0x8000_0000_0000_0000
    } else {
        bits as int
    }) < 0x7ff0_0000_0000_0000
}

/// An integer in JSON.
pub open spec fn integer_view(n: i64) -> JsonView {
    if n >= 0 {
        JsonView::Number(JsonNumber::Natural(n as u64))
    } else {
        JsonView::Number(JsonNumber::Negative(n))
    }
}

/// How many of the fields come before a name.
pub open spec fn field_place(fields: Seq<(Seq<char>, JsonView)>, name: Seq<char>) -> int
    decreases fields.len(),
{
    if fields.len() > 0 && text_lt(fields[0].0, name) {
        1 + field_place(fields.drop_first(), name)
    } else {
        0
    }
}

/// Fields with one more: in its place by name, instead of any with the same name.
pub open spec fn with_field(
    fields: Seq<(Seq<char>, JsonView)>,
    name: Seq<char>,
    value: JsonView,
) -> Seq<(Seq<char>, JsonView)> {
    let at = field_place(fields, name);
    if at < fields.len() && fields[at].0 == name {
        fields.update(at, (name, value))
    } else {
        fields.insert(at, (name, value))
    }
}

/// How many of the items have a smaller index.
pub open spec fn item_place(items: Seq<(usize, JsonView)>, index: usize) -> int
    decreases items.len(),
{
    if items.len() > 0 && items[0].0 < index {
        1 + item_place(items.drop_first(), index)
    } else {
        0
    }
}

/// Items with one more: in its place by index, instead of any with the same index.
pub open spec fn with_item(
    items: Seq<(usize, JsonView)>,
    index: usize,
    value: JsonView,
) -> Seq<(usize, JsonView)> {
    let at = item_place(items, index);
    if at < items.len() && items[at].0 == index {
        items.update(at, (index, value))
    } else {
        items.insert(at, (index, value))
    }
}

/// What was found in a table so far: values under names, and values under positive integers.
pub struct TableParts {
    pub object: Seq<(Seq<char>, JsonView)>,
    pub array: Seq<(usize, JsonView)>,
}

impl TableParts {
    /// The JSON value of a table: an object, or an array whose indices are 1, 2, 3 and so on.
    pub open spec fn value(self) -> Result<JsonView, Seq<char>> {
        if self.object.len() > 0 && self.array.len() > 0 {
            Err("Luau result tables cannot mix string and array keys"@)
        } else if self.object.len() > 0 {
            Ok(JsonView::Object(self.object))
        } else if forall|i: int| 0 <= i < self.array.len() ==> (#[trigger] self.array[i]).0 == i + 1 {
            Ok(JsonView::Array(self.array.map_values(|e: (usize, JsonView)| e.1)))
        } else {
            Err("Luau result array keys must be contiguous from 1"@)
        }
    }

    /// The parts with one more entry.
    pub open spec fn with(self, key: Lua, value: JsonView) -> Result<TableParts, Seq<char>> {
        match key {
            Lua::Text(name) => Ok(
                TableParts { object: with_field(self.object, name@, value), ..self },
            ),
            Lua::BadText(message) => Err(message@),
            Lua::Integer(index) => if index > 0 {
                if index > usize::MAX {
                    Err("Luau array index is too large"@)
                } else {
                    Ok(TableParts { array: with_item(self.array, index as usize, value), ..self })
                }
            } else {
                Err("Luau result table keys must be strings or positive integers"@)
            },
            _ => Err("Luau result table keys must be strings or positive integers"@),
        }
    }
}

/// The JSON form of a value at a depth, after `nodes` other values, inside the tables `active`; with
/// it, how many values were counted.
pub open spec fn converted(
    heap: Seq<LuaTable>,
    value: Lua,
    depth: nat,
    nodes: nat,
    active: Set<usize>,
) -> (Result<JsonView, Seq<char>>, nat)
    decreases (if depth <= 33 { 2 * (34 - depth) + 1 } else { 0 }), 0nat,
{
    let count = nodes + 1;
    if count > LUA_RESULT_MAX_NODES {
        (Err("Luau result exceeds the node limit"@), count)
    } else if depth > LUA_RESULT_MAX_DEPTH {
        (Err("Luau result exceeds the nesting depth limit"@), count)
    } else {
        match value {
            Lua::Nil => (Ok(JsonView::Null), count),
            Lua::Boolean(b) => (Ok(JsonView::Bool(b)), count),
            Lua::Integer(n) => (Ok(integer_view(n)), count),
            Lua::Number(n) => (
                if is_finite(n.bits) {
                    Ok(JsonView::Number(JsonNumber::Binary(n.bits)))
                } else {
                    Err("Luau result contains a non-finite number"@)
                },
                count,
            ),
            Lua::Text(s) => (Ok(JsonView::Text(s@)), count),
            Lua::BadText(message) => (Err(message@), count),
            Lua::Table(at) => if active.contains(at) {
                (Err("Luau result contains a cyclic table"@), count)
            } else if at >= heap.len() {
                (Err("unsupported Luau result value"@), count)
            } else {
                let (parts, total) = entries_converted(
                    heap,
                    heap[at as int].entries@,
                    depth,
                    count,
                    active.insert(at),
                    TableParts { object: Seq::empty(), array: Seq::empty() },
                );
                match parts {
                    Ok(parts) => (parts.value(), total),
                    Err(message) => (Err(message), total),
                }
            },
            Lua::Other(_) => (Err("unsupported Luau result value"@), count),
        }
    }
}

/// The parts of a table with the entries that are left taken in, or the first error among them.
pub open spec fn entries_converted(
    heap: Seq<LuaTable>,
    entries: Seq<(Lua, Lua)>,
    depth: nat,
    nodes: nat,
    active: Set<usize>,
    parts: TableParts,
) -> (Result<TableParts, Seq<char>>, nat)
    decreases (if depth <= 33 { 2 * (34 - depth) } else { 0 }), entries.len(),
{
    if entries.len() == 0 || depth > LUA_RESULT_MAX_DEPTH {
        (Ok(parts), nodes)
    } else {
        let (value, count) = converted(heap, entries[0].1, depth + 1, nodes, active);
        match value {
            Err(message) => (Err(message), count),
            Ok(json) => match parts.with(entries[0].0, json) {
                Err(message) => (Err(message), count),
                Ok(more) => entries_converted(
                    heap,
                    entries.drop_first(),
                    depth,
                    count,
                    active,
                    more,
                ),
            },
        }
    }
}

/// The views of a list of indexed values.
pub open spec fn item_views(items: Seq<(usize, Json)>) -> Seq<(usize, JsonView)> {
    items.map_values(|e: (usize, Json)| (e.0, json_view(e.1)))
}

/// Whether a result is the given one, up to views.
pub open spec fn shows_json(out: Result<Json, String>, expected: Result<JsonView, Seq<char>>) -> bool {
    match out {
        Ok(json) => expected == Ok::<JsonView, Seq<char>>(json_view(json)),
        Err(message) => expected == Err::<JsonView, Seq<char>>(message@),
    }
}

pub proof fn object_view(fields: Vec<(String, Json)>)
    ensures
        json_view(Json::Object(fields)) == JsonView::Object(field_views(fields@)),
{
    assert(json_view(Json::Object(fields))->Object_0 =~= field_views(fields@));
}

proof fn array_view(items: Vec<Json>)
    ensures
        json_view(Json::Array(items)) == JsonView::Array(json_views(items@)),
{
    assert(json_view(Json::Array(items))->Array_0 =~= json_views(items@));
}

proof fn field_place_is(fields: Seq<(Seq<char>, JsonView)>, name: Seq<char>, i: int)
    requires
        0 <= i <= fields.len(),
        forall|j: int| 0 <= j < i ==> text_lt((#[trigger] fields[j]).0, name),
        i < fields.len() ==> !text_lt(fields[i].0, name),
    ensures
        field_place(fields, name) == i,
    decreases fields.len(),
{
    if i > 0 {
        let rest = fields.drop_first();
        assert(text_lt(fields[0].0, name));
        assert forall|j: int| 0 <= j < i - 1 implies text_lt((#[trigger] rest[j]).0, name) by {
            assert(rest[j] == fields[j + 1]);
        }
        field_place_is(rest, name, i - 1);
    }
}

proof fn item_place_is(items: Seq<(usize, JsonView)>, index: usize, i: int)
    requires
        0 <= i <= items.len(),
        forall|j: int| 0 <= j < i ==> (#[trigger] items[j]).0 < index,
        i < items.len() ==> !(items[i].0 < index),
    ensures
        item_place(items, index) == i,
    decreases items.len(),
{
    if i > 0 {
        let rest = items.drop_first();
        assert(items[0].0 < index);
        assert forall|j: int| 0 <= j < i - 1 implies (#[trigger] rest[j]).0 < index by {
            assert(rest[j] == items[j + 1]);
        }
        item_place_is(rest, index, i - 1);
    }
}

fn put_field(fields: &mut Vec<(String, Json)>, name: &str, value: Json)
    ensures
        field_views(final(fields)@) == with_field(
            field_views(old(fields)@),
            name@,
            json_view(value),
        ),
{
    let ghost before = field_views(fields@);
    let mut at: usize = 0;
    while at < fields.len() && comes_before(&fields[at].0, name)
        invariant
            at <= fields@.len(),
            fields@ == old(fields)@,
            before == field_views(fields@),
            forall|j: int| 0 <= j < at ==> text_lt((#[trigger] before[j]).0, name@),
        decreases fields@.len() - at,
    {
        assert(before[at as int].0 == fields@[at as int].0@);
        at = at + 1;
    }
    proof {
        if at < fields@.len() {
            assert(before[at as int].0 == fields@[at as int].0@);
        }
        field_place_is(before, name@, at as int);
    }
    let ghost shown = json_view(value);
    if at < fields.len() && same_text(&fields[at].0, name) {
        let _ = fields.remove(at);
        fields.insert(at, (name.to_owned(), value));
        assert(field_views(fields@) =~= before.update(at as int, (name@, shown)));
    } else {
        fields.insert(at, (name.to_owned(), value));
        assert(field_views(fields@) =~= before.insert(at as int, (name@, shown)));
    }
}

fn put_item(items: &mut Vec<(usize, Json)>, index: usize, value: Json)
    ensures
        item_views(final(items)@) == with_item(item_views(old(items)@), index, json_view(value)),
{
    let ghost before = item_views(items@);
    let mut at: usize = 0;
    while at < items.len() && items[at].0 < index
        invariant
            at <= items@.len(),
            items@ == old(items)@,
            before == item_views(items@),
            forall|j: int| 0 <= j < at ==> (#[trigger] before[j]).0 < index,
        decreases items@.len() - at,
    {
        at = at + 1;
    }
    proof {
        item_place_is(before, index, at as int);
    }
    let ghost shown = json_view(value);
    if at < items.len() && items[at].0 == index {
        let _ = items.remove(at);
        items.insert(at, (index, value));
        assert(item_views(items@) =~= before.update(at as int, (index, shown)));
    } else {
        items.insert(at, (index, value));
        assert(item_views(items@) =~= before.insert(at as int, (index, shown)));
    }
}

fn finish_table(object: Vec<(String, Json)>, array: Vec<(usize, Json)>) -> (out: Result<
    Json,
    String,
>)
    ensures
        shows_json(
            out,
            (TableParts { object: field_views(object@), array: item_views(array@) }).value(),
        ),
{
    let ghost parts = TableParts { object: field_views(object@), array: item_views(array@) };
    if object.len() > 0 && array.len() > 0 {
        return Err("Luau result tables cannot mix string and array keys".to_owned());
    }
    if object.len() > 0 {
        proof {
            object_view(object);
        }
        return Ok(Json::Object(object));
    }
    let mut rest = array;
    let mut items: Vec<Json> = Vec::new();
    let ghost all = array@;
    while rest.len() > 0
        invariant
            items@.len() + rest@.len() == all.len(),
            rest@ == all.skip(items@.len() as int),
            all == array@,
            parts == (TableParts { object: field_views(object@), array: item_views(array@) }),
            object@.len() == 0,
            forall|i: int| 0 <= i < items@.len() ==> (#[trigger] all[i]).0 == i + 1,
            json_views(items@) == item_views(all).take(items@.len() as int).map_values(
                |e: (usize, JsonView)| e.1,
            ),
        decreases rest@.len(),
    {
        let (index, value) = rest.remove(0);
        let ghost n = items@.len() as int;
        assert(all[n] == (index, value));
        assert(parts.array[n].0 == index);
        if index == 0 || index - 1 != items.len() {
            assert(!(parts.array[n].0 == n + 1));
            return Err("Luau result array keys must be contiguous from 1".to_owned());
        }
        let ghost before = items@;
        items.push(value);
        proof {
            assert(rest@ =~= all.skip(n + 1));
            assert(json_views(items@) =~= json_views(before).push(json_view(value)));
            assert(item_views(all).take(n + 1) =~= item_views(all).take(n).push(
                item_views(all)[n],
            ));
            assert(item_views(all).take(n + 1).map_values(|e: (usize, JsonView)| e.1)
                =~= item_views(all).take(n).map_values(|e: (usize, JsonView)| e.1).push(
                json_view(value),
            ));
        }
    }
    proof {
        array_view(items);
        assert(item_views(all).take(items@.len() as int) =~= item_views(all));
        assert forall|i: int| 0 <= i < parts.array.len() implies (#[trigger] parts.array[i]).0 == i
            + 1 by {
            assert(all[i].0 == i + 1);
        }
    }
    Ok(Json::Array(items))
}

fn contains_index(list: &Vec<usize>, at: usize) -> (out: bool)
    ensures
        out == list@.to_set().contains(at),
{
    let mut i: usize = 0;
    while i < list.len()
        invariant
            i <= list@.len(),
            forall|j: int| 0 <= j < i ==> list@[j] != at,
        decreases list@.len() - i,
    {
        if list[i] == at {
            assert(list@.contains(at));
            return true;
        }
        i = i + 1;
    }
    false
}

fn lua_table_to_json(
    heap: &Vec<LuaTable>,
    at: usize,
    depth: usize,
    nodes: &mut usize,
    active: &mut Vec<usize>,
) -> (out: Result<Json, String>)
    requires
        at < heap@.len(),
        depth <= LUA_RESULT_MAX_DEPTH,
        *old(nodes) <= LUA_RESULT_MAX_NODES,
    ensures
        final(active)@ == old(active)@,
        out is Ok ==> *final(nodes) <= LUA_RESULT_MAX_NODES,
        ({
            let (parts, total) = entries_converted(
                heap@,
                heap@[at as int].entries@,
                depth as nat,
                *old(nodes) as nat,
                old(active)@.to_set(),
                TableParts { object: Seq::empty(), array: Seq::empty() },
            );
            &&& *final(nodes) == total
            &&& match parts {
                Ok(parts) => shows_json(out, parts.value()),
                Err(message) => out matches Err(text) && text@ == message,
            }
        }),
    decreases LUA_RESULT_MAX_DEPTH + 1 - depth, 0nat,
{
    let entries = &heap[at].entries;
    let mut object: Vec<(String, Json)> = Vec::new();
    let mut array: Vec<(usize, Json)> = Vec::new();
    let ghost start = entries_converted(
        heap@,
        entries@,
        depth as nat,
        *old(nodes) as nat,
        old(active)@.to_set(),
        TableParts { object: Seq::empty(), array: Seq::empty() },
    );
    proof {
        assert(entries@.skip(0) =~= entries@);
        assert(field_views(object@) =~= Seq::<(Seq<char>, JsonView)>::empty());
        assert(item_views(array@) =~= Seq::<(usize, JsonView)>::empty());
    }
    let mut i: usize = 0;
    while i < entries.len()
        invariant
            i <= entries@.len(),
            depth <= LUA_RESULT_MAX_DEPTH,
            *nodes <= LUA_RESULT_MAX_NODES,
            active@ == old(active)@,
            at < heap@.len(),
            entries@ == heap@[at as int].entries@,
            start == entries_converted(
                heap@,
                heap@[at as int].entries@,
                depth as nat,
                *old(nodes) as nat,
                old(active)@.to_set(),
                TableParts { object: Seq::empty(), array: Seq::empty() },
            ),
            start == entries_converted(
                heap@,
                entries@.skip(i as int),
                depth as nat,
                *nodes as nat,
                old(active)@.to_set(),
                TableParts { object: field_views(object@), array: item_views(array@) },
            ),
        decreases entries@.len() - i,
    {
        let ghost rest = entries@.skip(i as int);
        let ghost parts = TableParts {
            object: field_views(object@),
            array: item_views(array@),
        };
        assert(rest[0] == entries@[i as int]);
        assert(rest.drop_first() =~= entries@.skip(i + 1));
        let (key, value) = &entries[i];
        let json = match lua_value_to_json_inner(heap, value, depth + 1, nodes, active) {
            Ok(json) => json,
            Err(message) => {
                return Err(message);
            },
        };
        match key {
            Lua::Text(name) => {
                put_field(&mut object, name, json);
            },
            Lua::BadText(message) => {
                return Err(message.clone());
            },
            Lua::Integer(index) => {
                if *index <= 0 {
                    return Err(
                        "Luau result table keys must be strings or positive integers".to_owned(),
                    );
                }
                if *index as u64 > usize::MAX as u64 {
                    return Err("Luau array index is too large".to_owned());
                }
                put_item(&mut array, *index as usize, json);
            },
            _ => {
                return Err(
                    "Luau result table keys must be strings or positive integers".to_owned(),
                );
            },
        }
        i = i + 1;
    }
    assert(entries@.skip(i as int).len() == 0);
    finish_table(object, array)
}

fn lua_value_to_json_inner(
    heap: &Vec<LuaTable>,
    value: &Lua,
    depth: usize,
    nodes: &mut usize,
    active: &mut Vec<usize>,
) -> (out: Result<Json, String>)
    requires
        depth <= LUA_RESULT_MAX_DEPTH + 1,
        *old(nodes) <= LUA_RESULT_MAX_NODES,
    ensures
        final(active)@ == old(active)@,
        out is Ok ==> *final(nodes) <= LUA_RESULT_MAX_NODES,
        ({
            let (expected, total) = converted(
                heap@,
                *value,
                depth as nat,
                *old(nodes) as nat,
                old(active)@.to_set(),
            );
            shows_json(out, expected) && *final(nodes) == total
        }),
    decreases LUA_RESULT_MAX_DEPTH + 1 - depth, 1nat,
{
    *nodes = *nodes + 1;
    if *nodes > LUA_RESULT_MAX_NODES {
        return Err("Luau result exceeds the node limit".to_owned());
    }
    if depth > LUA_RESULT_MAX_DEPTH {
        return Err("Luau result exceeds the nesting depth limit".to_owned());
    }
    match value {
        Lua::Nil => Ok(Json::Null),
        Lua::Boolean(b) => Ok(Json::Bool(*b)),
        Lua::Integer(n) => {
            if *n >= 0 {
                Ok(Json::Number(JsonNumber::Natural(*n as u64)))
            } else {
                Ok(Json::Number(JsonNumber::Negative(*n)))
            }
        },
        Lua::Number(n) => {
            let magnitude: u64 = if n.bits >= 0x8000_0000_0000_0000 {
                n.bits - 0x8000_0000_0000_0000
            } else {
                n.bits
            };
            if magnitude < 0x7ff0_0000_0000_0000 {
                Ok(Json::Number(JsonNumber::Binary(n.bits)))
            } else {
                Err("Luau result contains a non-finite number".to_owned())
            }
        },
        Lua::Text(s) => Ok(Json::Text(s.clone())),
        Lua::BadText(message) => Err(message.clone()),
        Lua::Table(at) => {
            if contains_index(active, *at) {
                return Err("Luau result contains a cyclic table".to_owned());
            }
            if *at >= heap.len() {
                return Err("unsupported Luau result value".to_owned());
            }
            let ghost before = active@;
            active.push(*at);
            assert(active@.to_set() =~= before.to_set().insert(*at)) by {
                assert forall|k: usize| active@.contains(k) <==> before.contains(k) || k == *at by {
                    if before.contains(k) {
                        let j = choose|j: int| 0 <= j < before.len() && before[j] == k;
                        assert(active@[j] == k);
                    }
                    assert(active@[before.len() as int] == *at);
                }
            }
            let out = lua_table_to_json(heap, *at, depth, nodes, active);
            let _ = active.pop();
            assert(active@ =~= before);
            out
        },
        Lua::Other(_) => Err("unsupported Luau result value".to_owned()),
    }
}

/// The JSON form of a script's value: at most 4096 values, nested at most 32 deep, without cycles.
pub fn lua_value_to_json(heap: &Vec<LuaTable>, value: &Lua) -> (out: Result<Json, String>)
    ensures
        shows_json(out, converted(heap@, *value, 0, 0, Set::empty()).0),
{
    let mut nodes: usize = 0;
    let mut active: Vec<usize> = Vec::new();
    assert(active@.to_set() =~= Set::<usize>::empty());
    lua_value_to_json_inner(heap, value, 0, &mut nodes, &mut active)
}

/// The value under a positive integer in a table: the first entry with that key, and `Nil` where there
/// is none.
pub open spec fn element(entries: Seq<(Lua, Lua)>, index: int) -> Lua
    decreases entries.len(),
{
    if entries.len() == 0 {
        Lua::Nil
    } else if entries[0].0 matches Lua::Integer(n) && n == index {
        entries[0].1
    } else {
        element(entries.drop_first(), index)
    }
}

/// The decimal text of an integer.
pub open spec fn signed_decimal(n: int) -> Seq<char> {
    if n < 0 {
        "-"@ + decimal((-n) as nat)
    } else {
        decimal(n as nat)
    }
}

/// The text of a value that is a scalar, or why it is none.
pub open spec fn scalar_text(value: Lua) -> Result<Seq<char>, Seq<char>> {
    match value {
        Lua::Text(s) => Ok(s@),
        Lua::BadText(message) => Err(message@),
        Lua::Integer(n) => Ok(signed_decimal(n as int)),
        Lua::Number(n) => Ok(n.text@),
        Lua::Boolean(b) => Ok(if b { "true"@ } else { "false"@ }),
        Lua::Table(_) => Err("command argument must be scalar, got table"@),
        Lua::Other(shown) => Err("command argument must be scalar, got "@ + shown@),
        Lua::Nil => Err("command argument must be scalar, got nil"@),
    }
}

/// The texts of a table's values from `index` on, up to the first `Nil`.
pub open spec fn scalar_texts(entries: Seq<(Lua, Lua)>, index: int, limit: int) -> Result<
    Seq<Seq<char>>,
    Seq<char>,
>
    decreases limit + 1 - index,
{
    if index > limit || element(entries, index) is Nil {
        Ok(Seq::empty())
    } else {
        match scalar_text(element(entries, index)) {
            Err(message) => Err(message),
            Ok(text) => match scalar_texts(entries, index + 1, limit) {
                Err(message) => Err(message),
                Ok(rest) => Ok(seq![text] + rest),
            },
        }
    }
}

fn find_element(entries: &Vec<(Lua, Lua)>, index: i64) -> (out: Option<&Lua>)
    ensures
        match out {
            Some(value) => element(entries@, index as int) == *value,
            None => element(entries@, index as int) is Nil,
        },
{
    let mut i: usize = 0;
    assert(entries@.skip(0) =~= entries@);
    while i < entries.len()
        invariant
            i <= entries@.len(),
            element(entries@.skip(i as int), index as int) == element(entries@, index as int),
        decreases entries@.len() - i,
    {
        let (key, value) = &entries[i];
        assert(entries@.skip(i as int)[0] == entries@[i as int]);
        assert(entries@.skip(i as int).drop_first() =~= entries@.skip(i + 1));
        match key {
            Lua::Integer(n) => {
                if *n == index {
                    return Some(value);
                }
            },
            _ => {},
        }
        i = i + 1;
    }
    None
}

fn signed_text(n: i64) -> (out: String)
    ensures
        out@ == signed_decimal(n as int),
{
    if n >= 0 {
        decimal_text(n as u64)
    } else if n == i64::MIN {
        let digits = decimal_text(0x8000_0000_0000_0000);
        join("-", &digits)
    } else {
        let digits = decimal_text((-n) as u64);
        join("-", &digits)
    }
}

fn lua_argument_text(value: &Lua) -> (out: Result<String, String>)
    ensures
        match out {
            Ok(text) => scalar_text(*value) == Ok::<Seq<char>, Seq<char>>(text@),
            Err(message) => scalar_text(*value) == Err::<Seq<char>, Seq<char>>(message@),
        },
{
    match value {
        Lua::Text(s) => Ok(s.clone()),
        Lua::BadText(message) => Err(message.clone()),
        Lua::Integer(n) => Ok(signed_text(*n)),
        Lua::Number(n) => Ok(n.text.clone()),
        Lua::Boolean(b) => Ok(
            if *b {
                "true".to_owned()
            } else {
                "false".to_owned()
            },
        ),
        Lua::Table(_) => Err("command argument must be scalar, got table".to_owned()),
        Lua::Other(shown) => Err(join("command argument must be scalar, got ", shown)),
        Lua::Nil => Err("command argument must be scalar, got nil".to_owned()),
    }
}

/// The arguments that a script gives a command: the scalars of a list. What is no table gives none.
pub fn lua_arguments(heap: &Vec<LuaTable>, value: &Lua) -> (out: Result<Vec<String>, String>)
    ensures
        match *value {
            Lua::Table(at) => if at < heap@.len() {
                match scalar_texts(heap@[at as int].entries@, 1, i64::MAX as int) {
                    Ok(list) => out matches Ok(arguments) && texts(arguments@) == list,
                    Err(text) => out matches Err(message) && message@ == text,
                }
            } else {
                out matches Ok(arguments) && arguments@.len() == 0
            },
            _ => out matches Ok(arguments) && arguments@.len() == 0,
        },
{
    let mut list: Vec<String> = Vec::new();
    match value {
        Lua::Table(at) => {
            if *at >= heap.len() {
                return Ok(list);
            }
            let entries = &heap[*at].entries;
            let ghost all = scalar_texts(entries@, 1, i64::MAX as int);
            let mut index: i64 = 1;
            proof {
                assert(texts(list@) =~= Seq::<Seq<char>>::empty());
                if all is Ok {
                    assert(texts(list@) + all->Ok_0 =~= all->Ok_0);
                }
            }
            loop
                invariant
                    1 <= index,
                    entries@ == heap@[*at as int].entries@,
                    *at < heap@.len(),
                    *value == Lua::Table(*at),
                    all == scalar_texts(entries@, 1, i64::MAX as int),
                    match scalar_texts(entries@, index as int, i64::MAX as int) {
                        Ok(rest) => all == Ok::<Seq<Seq<char>>, Seq<char>>(texts(list@) + rest),
                        Err(message) => all == Err::<Seq<Seq<char>>, Seq<char>>(message),
                    },
                decreases i64::MAX - index,
            {
                let text = match find_element(entries, index) {
                    None => {
                        assert(texts(list@) + Seq::<Seq<char>>::empty() =~= texts(list@));
                        return Ok(list);
                    },
                    Some(Lua::Nil) => {
                        assert(texts(list@) + Seq::<Seq<char>>::empty() =~= texts(list@));
                        return Ok(list);
                    },
                    Some(found) => match lua_argument_text(found) {
                        Ok(text) => text,
                        Err(message) => {
                            return Err(message);
                        },
                    },
                };
                let ghost before = list@;
                let ghost rest = scalar_texts(entries@, index + 1, i64::MAX as int);
                list.push(text);
                proof {
                    assert(texts(list@) =~= texts(before).push(text@));
                    if rest is Ok {
                        assert(texts(before) + (seq![text@] + rest->Ok_0) =~= texts(list@)
                            + rest->Ok_0);
                    }
                }
                if index == i64::MAX {
                    proof {
                        assert(rest == Ok::<Seq<Seq<char>>, Seq<char>>(Seq::empty()));
                        assert(texts(list@) + Seq::<Seq<char>>::empty() =~= texts(list@));
                    }
                    return Ok(list);
                }
                index = index + 1;
            }
        },
        _ => Ok(list),
    }
}

/// A target as a script gives it: its parts, where they could be read, and else why not.
#[derive(Debug)]
pub struct TargetDraft {
    pub kind: Result<String, String>,
    pub generation: Lua,
    pub handle: Result<String, String>,
}

/// Why a text is no `u64`.
pub open spec fn number_error(s: Seq<char>) -> Seq<char> {
    let digits = if s.len() > 0 && s[0] == '+' { s.drop_first() } else { s };
    if s.len() == 0 {
        "cannot parse integer from empty string"@
    } else if digits.len() == 0 || !all_digits(digits) {
        "invalid digit found in string"@
    } else {
        "number too large to fit in target type"@
    }
}

/// The generation that a script gives, or why it is none.
pub open spec fn generation_given(value: Lua) -> Result<u64, Seq<char>> {
    match value {
        Lua::Integer(n) => if n >= 0 {
            Ok(n as u64)
        } else {
            Err("target generation is required"@)
        },
        Lua::Number(n) => match n.natural {
            Some(whole) => Ok(whole),
            None => Err("target generation is required"@),
        },
        Lua::Text(s) => match number(s@, u64::MAX as nat) {
            Some(n) => Ok(n as u64),
            None => Err(number_error(s@)),
        },
        Lua::BadText(message) => Err(message@),
        _ => Err("target generation is required"@),
    }
}

/// The target that a script gives, or the first thing that is wrong with it.
pub open spec fn target_given(draft: TargetDraft) -> Result<
    (super::command::ResourceKind, Seq<char>, u64),
    Seq<char>,
> {
    match draft.kind {
        Err(message) => Err(message@),
        Ok(name) => match resource_kind_named(name@) {
            None => Err("unknown target kind "@ + name@),
            Some(kind) => match generation_given(draft.generation) {
                Err(message) => Err(message),
                Ok(generation) => match draft.handle {
                    Err(message) => Err(message@),
                    Ok(handle) => Ok((kind, handle@, generation)),
                },
            },
        },
    }
}

fn explain_number(s: &str) -> (out: String)
    ensures
        out@ == number_error(s@),
{
    let chars = crate::text::chars_of(s);
    if chars.len() == 0 {
        return "cannot parse integer from empty string".to_owned();
    }
    let from: usize = if chars[0] == '+' {
        1
    } else {
        0
    };
    let ghost digits = if s@.len() > 0 && s@[0] == '+' { s@.drop_first() } else { s@ };
    proof {
        assert(digits =~= s@.skip(from as int));
    }
    if from >= chars.len() {
        return "invalid digit found in string".to_owned();
    }
    let mut i: usize = from;
    while i < chars.len()
        invariant
            from <= i <= chars@.len(),
            from < chars@.len(),
            chars@ == s@,
            digits == s@.skip(from as int),
            digits == (if s@.len() > 0 && s@[0] == '+' { s@.drop_first() } else { s@ }),
            forall|j: int| 0 <= j < i - from ==> crate::text::is_digit(#[trigger] digits[j]),
        decreases chars@.len() - i,
    {
        assert(digits[i - from] == chars@[i as int]);
        if !('0' <= chars[i] && chars[i] <= '9') {
            assert(!crate::text::is_digit(digits[i - from]));
            return "invalid digit found in string".to_owned();
        }
        i = i + 1;
    }
    "number too large to fit in target type".to_owned()
}

/// The target that a script gives, where it gives one.
pub fn lua_target_from_value(draft: Option<TargetDraft>) -> (out: Result<
    Option<CommandTarget>,
    String,
>)
    ensures
        match draft {
            None => out matches Ok(None),
            Some(given) => match target_given(given) {
                Ok(id) => out matches Ok(Some(target)) && target.id() == id,
                Err(text) => out matches Err(message) && message@ == text,
            },
        },
{
    let given = match draft {
        None => {
            return Ok(None);
        },
        Some(given) => given,
    };
    let name = match given.kind {
        Ok(name) => name,
        Err(message) => {
            return Err(message);
        },
    };
    let kind = match find_resource_kind(&name) {
        Some(kind) => kind,
        None => {
            return Err(join("unknown target kind ", &name));
        },
    };
    let generation: u64 = match &given.generation {
        Lua::Integer(n) => if *n >= 0 {
            *n as u64
        } else {
            return Err("target generation is required".to_owned());
        },
        Lua::Number(n) => match n.natural {
            Some(whole) => whole,
            None => {
                return Err("target generation is required".to_owned());
            },
        },
        Lua::Text(s) => match parse_number(s, u64::MAX) {
            Some(n) => n,
            None => {
                return Err(explain_number(s));
            },
        },
        Lua::BadText(message) => {
            return Err(message.clone());
        },
        _ => {
            return Err("target generation is required".to_owned());
        },
    };
    match given.handle {
        Err(message) => Err(message),
        Ok(handle) => Ok(Some(CommandTarget { kind, handle, generation })),
    }
}

/// Whether a JSON value is nested at most so many levels deep.
pub open spec fn nested_at_most(value: JsonView, levels: nat) -> bool
    decreases value,
{
    match value {
        JsonView::Array(items) => forall|i: int|
            0 <= i < items.len() ==> levels > 0 && nested_at_most(
                #[trigger] items[i],
                (levels - 1) as nat,
            ),
        JsonView::Object(fields) => forall|i: int|
            0 <= i < fields.len() ==> levels > 0 && nested_at_most(
                (#[trigger] fields[i]).1,
                (levels - 1) as nat,
            ),
        _ => true,
    }
}

/// Whether all values of a table are nested at most so many levels deep.
pub open spec fn parts_nested(parts: TableParts, levels: nat) -> bool {
    &&& forall|i: int|
        0 <= i < parts.object.len() ==> nested_at_most((#[trigger] parts.object[i]).1, levels)
    &&& forall|i: int|
        0 <= i < parts.array.len() ==> nested_at_most((#[trigger] parts.array[i]).1, levels)
}

proof fn field_place_bounds(fields: Seq<(Seq<char>, JsonView)>, name: Seq<char>)
    ensures
        0 <= field_place(fields, name) <= fields.len(),
    decreases fields.len(),
{
    if fields.len() > 0 && text_lt(fields[0].0, name) {
        field_place_bounds(fields.drop_first(), name);
    }
}

proof fn item_place_bounds(items: Seq<(usize, JsonView)>, index: usize)
    ensures
        0 <= item_place(items, index) <= items.len(),
    decreases items.len(),
{
    if items.len() > 0 && items[0].0 < index {
        item_place_bounds(items.drop_first(), index);
    }
}

proof fn entry_keeps_nesting(parts: TableParts, key: Lua, value: JsonView, levels: nat)
    requires
        parts_nested(parts, levels),
        nested_at_most(value, levels),
        parts.with(key, value) is Ok,
    ensures
        parts_nested(parts.with(key, value)->Ok_0, levels),
{
    let more = parts.with(key, value)->Ok_0;
    match key {
        Lua::Text(name) => {
            field_place_bounds(parts.object, name@);
            let at = field_place(parts.object, name@);
            assert forall|i: int| 0 <= i < more.object.len() implies nested_at_most(
                (#[trigger] more.object[i]).1,
                levels,
            ) by {
                if at < parts.object.len() && parts.object[at].0 == name@ {
                    if i != at {
                        assert(more.object[i] == parts.object[i]);
                    }
                } else if i < at {
                    assert(more.object[i] == parts.object[i]);
                } else if i > at {
                    assert(more.object[i] == parts.object[i - 1]);
                }
            }
        },
        Lua::Integer(index) => {
            item_place_bounds(parts.array, index as usize);
            let at = item_place(parts.array, index as usize);
            assert forall|i: int| 0 <= i < more.array.len() implies nested_at_most(
                (#[trigger] more.array[i]).1,
                levels,
            ) by {
                if at < parts.array.len() && parts.array[at].0 == index as usize {
                    if i != at {
                        assert(more.array[i] == parts.array[i]);
                    }
                } else if i < at {
                    assert(more.array[i] == parts.array[i]);
                } else if i > at {
                    assert(more.array[i] == parts.array[i - 1]);
                }
            }
        },
        _ => {},
    }
}

proof fn entries_are_bounded(
    heap: Seq<LuaTable>,
    entries: Seq<(Lua, Lua)>,
    depth: nat,
    nodes: nat,
    active: Set<usize>,
    parts: TableParts,
)
    requires
        depth < LUA_RESULT_MAX_DEPTH,
        nodes <= LUA_RESULT_MAX_NODES,
        parts_nested(parts, (LUA_RESULT_MAX_DEPTH - 1 - depth) as nat),
    ensures
        entries_converted(heap, entries, depth, nodes, active, parts).0 matches Ok(all) ==> {
            &&& parts_nested(all, (LUA_RESULT_MAX_DEPTH - 1 - depth) as nat)
            &&& entries_converted(heap, entries, depth, nodes, active, parts).1
                <= LUA_RESULT_MAX_NODES
        },
    decreases 2 * (LUA_RESULT_MAX_DEPTH - depth), entries.len(),
{
    if entries.len() > 0 {
        let (value, count) = converted(heap, entries[0].1, depth + 1, nodes, active);
        conversion_is_bounded_from(heap, entries[0].1, depth + 1, nodes, active);
        match value {
            Err(_) => {},
            Ok(json) => match parts.with(entries[0].0, json) {
                Err(_) => {},
                Ok(more) => {
                    entry_keeps_nesting(
                        parts,
                        entries[0].0,
                        json,
                        (LUA_RESULT_MAX_DEPTH - 1 - depth) as nat,
                    );
                    entries_are_bounded(heap, entries.drop_first(), depth, count, active, more);
                },
            },
        }
    }
}

proof fn conversion_is_bounded_from(
    heap: Seq<LuaTable>,
    value: Lua,
    depth: nat,
    nodes: nat,
    active: Set<usize>,
)
    requires
        depth <= LUA_RESULT_MAX_DEPTH,
        nodes <= LUA_RESULT_MAX_NODES,
    ensures
        converted(heap, value, depth, nodes, active).0 matches Ok(json) ==> {
            &&& nested_at_most(json, (LUA_RESULT_MAX_DEPTH - depth) as nat)
            &&& converted(heap, value, depth, nodes, active).1 <= LUA_RESULT_MAX_NODES
        },
    decreases 2 * (LUA_RESULT_MAX_DEPTH - depth) + 1, 0nat,
{
    let (out, count) = converted(heap, value, depth, nodes, active);
    match value {
        Lua::Table(at) => if !active.contains(at) && at < heap.len() && nodes + 1
            <= LUA_RESULT_MAX_NODES {
            let entries = heap[at as int].entries@;
            let none = TableParts { object: Seq::empty(), array: Seq::empty() };
            let (parts, total) = entries_converted(
                heap,
                entries,
                depth,
                nodes + 1,
                active.insert(at),
                none,
            );
            if depth < LUA_RESULT_MAX_DEPTH {
                entries_are_bounded(heap, entries, depth, nodes + 1, active.insert(at), none);
            } else if entries.len() > 0 {
                assert(converted(heap, entries[0].1, depth + 1, nodes + 1, active.insert(at)).0
                    is Err);
            }
        },
        _ => {},
    }
}

/// What a script hands over is never larger than the host takes: no more than 4096 values are read, and
/// what is read is nested at most 32 levels deep.
pub proof fn conversion_is_bounded(heap: Seq<LuaTable>, value: Lua)
    ensures
        converted(heap, value, 0, 0, Set::empty()).0 matches Ok(json) ==> {
            &&& nested_at_most(json, LUA_RESULT_MAX_DEPTH as nat)
            &&& converted(heap, value, 0, 0, Set::empty()).1 <= LUA_RESULT_MAX_NODES
        },
{
    conversion_is_bounded_from(heap, value, 0, 0, Set::empty());
}

/// Whether the value under a name is the last that a table gives that name.
pub open spec fn is_last_named(entries: Seq<(Lua, Lua)>, k: int, name: Seq<char>) -> bool {
    &&& 0 <= k < entries.len()
    &&& entries[k].0 matches Lua::Text(key) && key@ == name
    &&& forall|j: int|
        k < j < entries.len() ==> !((#[trigger] entries[j]).0 matches Lua::Text(key) && key@
            == name)
}

/// Whether the value under an index is the last that a table gives that index.
pub open spec fn is_last_indexed(entries: Seq<(Lua, Lua)>, k: int, index: int) -> bool {
    &&& 0 <= k < entries.len()
    &&& entries[k].0 matches Lua::Integer(key) && key == index
    &&& forall|j: int|
        k < j < entries.len() ==> !((#[trigger] entries[j]).0 matches Lua::Integer(key) && key
            == index)
}

/// Whether a JSON value says what a value of a script is: the same truth value, the same number, the
/// same text, the same values under the same names or in the same places, and nothing else.
pub open spec fn says(heap: Seq<LuaTable>, json: JsonView, value: Lua) -> bool
    decreases json, 0nat,
{
    match json {
        JsonView::Null => value is Nil,
        JsonView::Bool(b) => value matches Lua::Boolean(given) && (b <==> given),
        JsonView::Number(JsonNumber::Natural(n)) => value matches Lua::Integer(given) && n == given,
        JsonView::Number(JsonNumber::Negative(n)) => value matches Lua::Integer(given) && n == given
            && n < 0,
        JsonView::Number(JsonNumber::Binary(bits)) => value matches Lua::Number(given) && given.bits
            == bits,
        JsonView::Text(s) => value matches Lua::Text(given) && given@ == s,
        JsonView::Array(items) => value matches Lua::Table(at) && at < heap.len() && {
            let entries = heap[at as int].entries@;
            &&& forall|i: int|
                0 <= i < items.len() ==> says_item(heap, entries, i + 1, #[trigger] items[i])
            &&& forall|k: int|
                0 <= k < entries.len() ==> ((#[trigger] entries[k]).0 matches Lua::Integer(n) && 1
                    <= n <= items.len())
        },
        JsonView::Object(fields) => value matches Lua::Table(at) && at < heap.len() && {
            let entries = heap[at as int].entries@;
            &&& forall|i: int|
                0 <= i < fields.len() ==> says_field(
                    heap,
                    entries,
                    (#[trigger] fields[i]).0,
                    fields[i].1,
                )
            &&& forall|k: int|
                0 <= k < entries.len() ==> ((#[trigger] entries[k]).0 matches Lua::Text(name)
                    && has_field(fields, name@))
            &&& forall|i: int, j: int|
                0 <= i < j < fields.len() ==> text_lt(
                    (#[trigger] fields[i]).0,
                    (#[trigger] fields[j]).0,
                )
        },
    }
}

/// Whether a JSON value says what a table has under a name.
pub open spec fn says_field(
    heap: Seq<LuaTable>,
    entries: Seq<(Lua, Lua)>,
    name: Seq<char>,
    json: JsonView,
) -> bool
    decreases json, 1nat,
{
    exists|k: int| #[trigger] is_last_named(entries, k, name) && says(heap, json, entries[k].1)
}

/// Whether a JSON value says what a table has in a place.
pub open spec fn says_item(
    heap: Seq<LuaTable>,
    entries: Seq<(Lua, Lua)>,
    index: int,
    json: JsonView,
) -> bool
    decreases json, 1nat,
{
    exists|k: int| #[trigger] is_last_indexed(entries, k, index) && says(heap, json, entries[k].1)
}

/// Whether there is a field with a name.
pub open spec fn has_field(fields: Seq<(Seq<char>, JsonView)>, name: Seq<char>) -> bool {
    exists|i: int| 0 <= i < fields.len() && (#[trigger] fields[i]).0 == name
}

/// Whether there is an item with an index.
pub open spec fn has_item(items: Seq<(usize, JsonView)>, index: int) -> bool {
    exists|i: int| 0 <= i < items.len() && (#[trigger] items[i]).0 == index
}

/// Whether the parts of a table say what the entries so far are.
pub open spec fn parts_say(heap: Seq<LuaTable>, parts: TableParts, entries: Seq<(Lua, Lua)>) -> bool {
    &&& forall|i: int|
        0 <= i < parts.object.len() ==> says_field(
            heap,
            entries,
            (#[trigger] parts.object[i]).0,
            parts.object[i].1,
        )
    &&& forall|i: int|
        0 <= i < parts.array.len() ==> says_item(
            heap,
            entries,
            (#[trigger] parts.array[i]).0 as int,
            parts.array[i].1,
        )
    &&& forall|k: int|
        0 <= k < entries.len() ==> match (#[trigger] entries[k]).0 {
            Lua::Text(name) => has_field(parts.object, name@),
            Lua::Integer(n) => n > 0 && has_item(parts.array, n as int),
            _ => false,
        }
    &&& forall|i: int, j: int|
        0 <= i < j < parts.object.len() ==> text_lt(
            (#[trigger] parts.object[i]).0,
            (#[trigger] parts.object[j]).0,
        )
    &&& forall|i: int, j: int|
        0 <= i < j < parts.array.len() ==> (#[trigger] parts.array[i]).0 < (
        #[trigger] parts.array[j]).0
}

proof fn field_goes_to_its_place(fields: Seq<(Seq<char>, JsonView)>, name: Seq<char>)
    requires
        forall|i: int, j: int|
            0 <= i < j < fields.len() ==> text_lt(
                (#[trigger] fields[i]).0,
                (#[trigger] fields[j]).0,
            ),
    ensures
        ({
            let at = field_place(fields, name);
            &&& 0 <= at <= fields.len()
            &&& forall|i: int| 0 <= i < at ==> text_lt((#[trigger] fields[i]).0, name)
            &&& forall|i: int|
                at <= i < fields.len() ==> (#[trigger] fields[i]).0 == name && i == at || text_lt(
                    name,
                    fields[i].0,
                )
        }),
    decreases fields.len(),
{
    if fields.len() > 0 {
        let rest = fields.drop_first();
        if text_lt(fields[0].0, name) {
            assert forall|i: int, j: int| 0 <= i < j < rest.len() implies text_lt(
                (#[trigger] rest[i]).0,
                (#[trigger] rest[j]).0,
            ) by {
                assert(text_lt(fields[i + 1].0, fields[j + 1].0));
            }
            field_goes_to_its_place(rest, name);
            let at = field_place(fields, name);
            assert forall|i: int| 0 <= i < at implies text_lt((#[trigger] fields[i]).0, name) by {
                if i > 0 {
                    assert(rest[i - 1] == fields[i]);
                }
            }
            assert forall|i: int| at <= i < fields.len() implies (#[trigger] fields[i]).0 == name
                && i == at || text_lt(name, fields[i].0) by {
                assert(rest[i - 1] == fields[i]);
            }
        } else {
            text_lt_total(fields[0].0, name);
            assert forall|i: int| 0 <= i < fields.len() implies (#[trigger] fields[i]).0 == name
                && i == 0 || text_lt(name, fields[i].0) by {
                if i > 0 {
                    assert(text_lt(fields[0].0, fields[i].0));
                    if fields[0].0 != name {
                        text_lt_transitive(name, fields[0].0, fields[i].0);
                    }
                }
            }
        }
    }
}

proof fn item_goes_to_its_place(items: Seq<(usize, JsonView)>, index: usize)
    requires
        forall|i: int, j: int|
            0 <= i < j < items.len() ==> (#[trigger] items[i]).0 < (#[trigger] items[j]).0,
    ensures
        ({
            let at = item_place(items, index);
            &&& 0 <= at <= items.len()
            &&& forall|i: int| 0 <= i < at ==> (#[trigger] items[i]).0 < index
            &&& forall|i: int|
                at <= i < items.len() ==> (#[trigger] items[i]).0 == index && i == at || index
                    < items[i].0
        }),
    decreases items.len(),
{
    if items.len() > 0 {
        let rest = items.drop_first();
        if items[0].0 < index {
            assert forall|i: int, j: int| 0 <= i < j < rest.len() implies (#[trigger] rest[i]).0 < (
            #[trigger] rest[j]).0 by {
                assert(items[i + 1].0 < items[j + 1].0);
            }
            item_goes_to_its_place(rest, index);
            let at = item_place(items, index);
            assert forall|i: int| 0 <= i < at implies (#[trigger] items[i]).0 < index by {
                if i > 0 {
                    assert(rest[i - 1] == items[i]);
                }
            }
            assert forall|i: int| at <= i < items.len() implies (#[trigger] items[i]).0 == index && i
                == at || index < items[i].0 by {
                assert(rest[i - 1] == items[i]);
            }
        } else {
            assert forall|i: int| 0 <= i < items.len() implies (#[trigger] items[i]).0 == index && i
                == 0 || index < items[i].0 by {
                if i > 0 {
                    assert(items[0].0 < items[i].0);
                }
            }
        }
    }
}

proof fn field_stays_said(
    heap: Seq<LuaTable>,
    done: Seq<(Lua, Lua)>,
    entry: (Lua, Lua),
    name: Seq<char>,
    json: JsonView,
)
    requires
        says_field(heap, done, name, json),
        !(entry.0 matches Lua::Text(key) && key@ == name),
    ensures
        says_field(heap, done.push(entry), name, json),
{
    let all = done.push(entry);
    let k = choose|k: int| #[trigger] is_last_named(done, k, name) && says(heap, json, done[k].1);
    assert forall|m: int| k < m < all.len() implies !((#[trigger] all[m]).0 matches Lua::Text(key)
        && key@ == name) by {
        if m < done.len() {
            assert(all[m] == done[m]);
        }
    }
    assert(all[k] == done[k]);
    assert(is_last_named(all, k, name));
}

proof fn item_stays_said(
    heap: Seq<LuaTable>,
    done: Seq<(Lua, Lua)>,
    entry: (Lua, Lua),
    index: int,
    json: JsonView,
)
    requires
        says_item(heap, done, index, json),
        !(entry.0 matches Lua::Integer(key) && key == index),
    ensures
        says_item(heap, done.push(entry), index, json),
{
    let all = done.push(entry);
    let k = choose|k: int| #[trigger]
        is_last_indexed(done, k, index) && says(heap, json, done[k].1);
    assert forall|m: int| k < m < all.len() implies !((#[trigger] all[m]).0 matches Lua::Integer(
        key,
    ) && key == index) by {
        if m < done.len() {
            assert(all[m] == done[m]);
        }
    }
    assert(all[k] == done[k]);
    assert(is_last_indexed(all, k, index));
}

/// Where a field of the fields with one more comes from.
spec fn old_place(at: int, replaces: bool, i: int) -> int {
    if i < at || replaces {
        i
    } else {
        i - 1
    }
}

proof fn named_entry_is_said(
    heap: Seq<LuaTable>,
    parts: TableParts,
    done: Seq<(Lua, Lua)>,
    entry: (Lua, Lua),
    name: Seq<char>,
    json: JsonView,
)
    requires
        parts_say(heap, parts, done),
        says(heap, json, entry.1),
        entry.0 matches Lua::Text(key) && key@ == name,
    ensures
        parts_say(
            heap,
            TableParts { object: with_field(parts.object, name, json), ..parts },
            done.push(entry),
        ),
{
    let all = done.push(entry);
    let n = done.len() as int;
    let old = parts.object;
    let new = with_field(old, name, json);
    let at = field_place(old, name);
    field_goes_to_its_place(old, name);
    text_lt_irreflexive(name);
    let replaces = at < old.len() && old[at].0 == name;
    assert(new[at] == (name, json));
    assert(all[n] == entry);
    assert(is_last_named(all, n, name));
    assert(says_field(heap, all, name, json));
    assert forall|i: int| 0 <= i < new.len() && i != at implies (#[trigger] new[i]) == old[old_place(
        at,
        replaces,
        i,
    )] && 0 <= old_place(at, replaces, i) < old.len() && new[i].0 != name by {}
    assert forall|i: int| 0 <= i < new.len() implies says_field(
        heap,
        all,
        (#[trigger] new[i]).0,
        new[i].1,
    ) by {
        if i != at {
            let j = old_place(at, replaces, i);
            assert(says_field(heap, done, old[j].0, old[j].1));
            field_stays_said(heap, done, entry, old[j].0, old[j].1);
        }
    }
    assert forall|i: int| 0 <= i < parts.array.len() implies says_item(
        heap,
        all,
        (#[trigger] parts.array[i]).0 as int,
        parts.array[i].1,
    ) by {
        item_stays_said(heap, done, entry, parts.array[i].0 as int, parts.array[i].1);
    }
    assert forall|k: int| 0 <= k < all.len() implies match (#[trigger] all[k]).0 {
        Lua::Text(key) => has_field(new, key@),
        Lua::Integer(m) => m > 0 && has_item(parts.array, m as int),
        _ => false,
    } by {
        if k < n {
            assert(all[k] == done[k]);
            match done[k].0 {
                Lua::Text(key) => {
                    assert(has_field(old, key@));
                    let i = choose|i: int| 0 <= i < old.len() && (#[trigger] old[i]).0 == key@;
                    let j = if i < at || replaces {
                        i
                    } else {
                        i + 1
                    };
                    assert(new[j].0 == key@);
                },
                _ => {},
            }
        } else {
            assert(new[at].0 == name);
        }
    }
    assert forall|i: int, j: int| 0 <= i < j < new.len() implies text_lt(
        (#[trigger] new[i]).0,
        (#[trigger] new[j]).0,
    ) by {
        let a = old_place(at, replaces, i);
        let b = old_place(at, replaces, j);
        if i != at && j != at {
            assert(text_lt(old[a].0, old[b].0));
        } else if i == at {
            assert(new[j] == old[b]);
        } else {
            assert(new[i] == old[a]);
        }
    }
}

proof fn placed_entry_is_said(
    heap: Seq<LuaTable>,
    parts: TableParts,
    done: Seq<(Lua, Lua)>,
    entry: (Lua, Lua),
    index: usize,
    json: JsonView,
)
    requires
        parts_say(heap, parts, done),
        says(heap, json, entry.1),
        index > 0,
        entry.0 matches Lua::Integer(key) && key == index,
    ensures
        parts_say(
            heap,
            TableParts { array: with_item(parts.array, index, json), ..parts },
            done.push(entry),
        ),
{
    let all = done.push(entry);
    let n = done.len() as int;
    let old = parts.array;
    let new = with_item(old, index, json);
    let at = item_place(old, index);
    item_goes_to_its_place(old, index);
    let replaces = at < old.len() && old[at].0 == index;
    assert(new[at] == (index, json));
    assert(all[n] == entry);
    assert(is_last_indexed(all, n, index as int));
    assert(says_item(heap, all, index as int, json));
    assert forall|i: int| 0 <= i < new.len() && i != at implies (#[trigger] new[i]) == old[old_place(
        at,
        replaces,
        i,
    )] && 0 <= old_place(at, replaces, i) < old.len() && new[i].0 != index by {}
    assert forall|i: int| 0 <= i < new.len() implies says_item(
        heap,
        all,
        (#[trigger] new[i]).0 as int,
        new[i].1,
    ) by {
        if i != at {
            let j = old_place(at, replaces, i);
            assert(says_item(heap, done, old[j].0 as int, old[j].1));
            item_stays_said(heap, done, entry, old[j].0 as int, old[j].1);
        }
    }
    assert forall|i: int| 0 <= i < parts.object.len() implies says_field(
        heap,
        all,
        (#[trigger] parts.object[i]).0,
        parts.object[i].1,
    ) by {
        field_stays_said(heap, done, entry, parts.object[i].0, parts.object[i].1);
    }
    assert forall|k: int| 0 <= k < all.len() implies match (#[trigger] all[k]).0 {
        Lua::Text(name) => has_field(parts.object, name@),
        Lua::Integer(m) => m > 0 && has_item(new, m as int),
        _ => false,
    } by {
        if k < n {
            assert(all[k] == done[k]);
            match done[k].0 {
                Lua::Integer(m) => {
                    assert(has_item(old, m as int));
                    let i = choose|i: int| 0 <= i < old.len() && (#[trigger] old[i]).0 == m;
                    let j = if i < at || replaces {
                        i
                    } else {
                        i + 1
                    };
                    assert(new[j].0 == m);
                },
                _ => {},
            }
        } else {
            assert(new[at].0 == index);
        }
    }
    assert forall|i: int, j: int| 0 <= i < j < new.len() implies (#[trigger] new[i]).0 < (
    #[trigger] new[j]).0 by {
        let a = old_place(at, replaces, i);
        let b = old_place(at, replaces, j);
        if i != at && j != at {
            assert(old[a].0 < old[b].0);
        } else if i == at {
            assert(new[j] == old[b]);
        } else {
            assert(new[i] == old[a]);
        }
    }
}

proof fn entry_is_said(
    heap: Seq<LuaTable>,
    parts: TableParts,
    done: Seq<(Lua, Lua)>,
    entry: (Lua, Lua),
    json: JsonView,
)
    requires
        parts_say(heap, parts, done),
        says(heap, json, entry.1),
        parts.with(entry.0, json) is Ok,
    ensures
        parts_say(heap, parts.with(entry.0, json)->Ok_0, done.push(entry)),
{
    match entry.0 {
        Lua::Text(name) => {
            named_entry_is_said(heap, parts, done, entry, name@, json);
        },
        Lua::Integer(key) => {
            placed_entry_is_said(heap, parts, done, entry, key as usize, json);
        },
        _ => {},
    }
}

proof fn entries_are_said(
    heap: Seq<LuaTable>,
    done: Seq<(Lua, Lua)>,
    entries: Seq<(Lua, Lua)>,
    depth: nat,
    nodes: nat,
    active: Set<usize>,
    parts: TableParts,
)
    requires
        depth <= LUA_RESULT_MAX_DEPTH,
        parts_say(heap, parts, done),
    ensures
        entries_converted(heap, entries, depth, nodes, active, parts).0 matches Ok(all)
            ==> parts_say(heap, all, done + entries),
    decreases 2 * (LUA_RESULT_MAX_DEPTH + 1 - depth), entries.len(),
{
    if entries.len() > 0 {
        let (value, count) = converted(heap, entries[0].1, depth + 1, nodes, active);
        if depth < LUA_RESULT_MAX_DEPTH {
            conversion_says_from(heap, entries[0].1, depth + 1, nodes, active);
        }
        match value {
            Err(_) => {},
            Ok(json) => match parts.with(entries[0].0, json) {
                Err(_) => {},
                Ok(more) => {
                    entry_is_said(heap, parts, done, entries[0], json);
                    entries_are_said(
                        heap,
                        done.push(entries[0]),
                        entries.drop_first(),
                        depth,
                        count,
                        active,
                        more,
                    );
                    assert(done.push(entries[0]) + entries.drop_first() =~= done + entries);
                },
            },
        }
    } else {
        assert(done + entries =~= done);
    }
}

proof fn conversion_says_from(
    heap: Seq<LuaTable>,
    value: Lua,
    depth: nat,
    nodes: nat,
    active: Set<usize>,
)
    requires
        depth <= LUA_RESULT_MAX_DEPTH,
    ensures
        converted(heap, value, depth, nodes, active).0 matches Ok(json) ==> says(heap, json, value),
    decreases 2 * (LUA_RESULT_MAX_DEPTH + 1 - depth) + 1, 0nat,
{
    match value {
        Lua::Table(at) => if !active.contains(at) && at < heap.len() && nodes + 1
            <= LUA_RESULT_MAX_NODES {
            let entries = heap[at as int].entries@;
            let none = TableParts { object: Seq::empty(), array: Seq::empty() };
            entries_are_said(
                heap,
                Seq::empty(),
                entries,
                depth,
                nodes + 1,
                active.insert(at),
                none,
            );
            assert(Seq::<(Lua, Lua)>::empty() + entries =~= entries);
            let (parts, total) = entries_converted(
                heap,
                entries,
                depth,
                nodes + 1,
                active.insert(at),
                none,
            );
            if parts is Ok && parts->Ok_0.value() is Ok {
                let all = parts->Ok_0;
                parts_are_the_table(heap, all, entries, value, at);
            }
        },
        _ => {},
    }
}

proof fn parts_are_the_table(
    heap: Seq<LuaTable>,
    parts: TableParts,
    entries: Seq<(Lua, Lua)>,
    value: Lua,
    at: usize,
)
    requires
        parts_say(heap, parts, entries),
        value == Lua::Table(at),
        at < heap.len(),
        entries == heap[at as int].entries@,
        parts.value() is Ok,
    ensures
        says(heap, parts.value()->Ok_0, value),
{
    match parts.value()->Ok_0 {
        JsonView::Object(fields) => {
            assert forall|k: int| 0 <= k < entries.len() implies ((#[trigger] entries[k]).0
                matches Lua::Text(name) && has_field(fields, name@)) by {
                match entries[k].0 {
                    Lua::Integer(n) => {
                        assert(has_item(parts.array, n as int));
                    },
                    _ => {},
                }
            }
        },
        JsonView::Array(items) => {
            assert forall|i: int| 0 <= i < items.len() implies says_item(
                heap,
                entries,
                i + 1,
                #[trigger] items[i],
            ) by {
                assert(items[i] == parts.array[i].1);
                assert(parts.array[i].0 == i + 1);
            }
            assert forall|k: int| 0 <= k < entries.len() implies ((#[trigger] entries[k]).0
                matches Lua::Integer(n) && 1 <= n <= items.len()) by {
                match entries[k].0 {
                    Lua::Text(name) => {
                        assert(has_field(parts.object, name@));
                    },
                    Lua::Integer(n) => {
                        let i = choose|i: int|
                            0 <= i < parts.array.len() && (#[trigger] parts.array[i]).0 == n;
                        assert(parts.array[i].0 == i + 1);
                    },
                    _ => {},
                }
            }
        },
        _ => {},
    }
}

/// What a script hands over arrives as it is: the JSON value says exactly what the script's value was,
/// at every depth.
pub proof fn conversion_says_the_value(heap: Seq<LuaTable>, value: Lua)
    ensures
        converted(heap, value, 0, 0, Set::empty()).0 matches Ok(json) ==> says(heap, json, value),
{
    conversion_says_from(heap, value, 0, 0, Set::empty());
}

/// Whether a value is a scalar that JSON can say.
pub open spec fn is_plain_scalar(value: Lua) -> bool {
    match value {
        Lua::Nil | Lua::Boolean(_) | Lua::Integer(_) | Lua::Text(_) => true,
        Lua::Number(n) => is_finite(n.bits),
        _ => false,
    }
}

/// Every scalar that JSON can say is taken, and two scalars that arrive as the same are the same.
pub proof fn scalars_arrive_as_they_are(heap: Seq<LuaTable>, a: Lua, b: Lua)
    requires
        is_plain_scalar(a),
        is_plain_scalar(b),
    ensures
        converted(heap, a, 0, 0, Set::empty()).0 is Ok,
        a is Nil ==> converted(heap, a, 0, 0, Set::empty()).0 == Ok::<JsonView, Seq<char>>(
            JsonView::Null,
        ),
        a matches Lua::Boolean(x) ==> converted(heap, a, 0, 0, Set::empty()).0 == Ok::<
            JsonView,
            Seq<char>,
        >(JsonView::Bool(x)),
        a matches Lua::Text(x) ==> converted(heap, a, 0, 0, Set::empty()).0 == Ok::<
            JsonView,
            Seq<char>,
        >(JsonView::Text(x@)),
        converted(heap, a, 0, 0, Set::empty()).0 == converted(heap, b, 0, 0, Set::empty()).0
            ==> match (a, b) {
            (Lua::Nil, Lua::Nil) => true,
            (Lua::Boolean(x), Lua::Boolean(y)) => x == y,
            (Lua::Integer(x), Lua::Integer(y)) => x == y,
            (Lua::Text(x), Lua::Text(y)) => x@ == y@,
            (Lua::Number(x), Lua::Number(y)) => x.bits == y.bits,
            _ => false,
        },
{
}

/// A number is taken where it is one: not where its exponent is the largest, as it is in infinities and
/// in what is no number, with either sign.
pub proof fn finite_numbers_are_taken(sign: bool, exponent: u64, fraction: u64, bits: u64)
    requires
        exponent < 2048,
        fraction < 0x10_0000_0000_0000,
        bits == (if sign {
            0x8000_0000_0000_0000int
        } else {
            0
        }) + exponent * 0x10_0000_0000_0000 + fraction,
    ensures
        is_finite(bits) <==> exponent != 2047,
{
}

/// A value that a script can hand over: a plain scalar, or a table whose values can be handed over,
/// either all under names or in the places from one on. Tables come after those that they are in.
pub open spec fn fits(heap: Seq<LuaTable>, value: Lua, levels: nat) -> bool
    decreases levels,
{
    match value {
        Lua::Table(at) => at < heap.len() && {
            let entries = heap[at as int].entries@;
            &&& (forall|k: int| 0 <= k < entries.len() ==> (#[trigger] entries[k]).0 is Text) || (
            forall|k: int|
                0 <= k < entries.len() ==> (#[trigger] entries[k]).0 == Lua::Integer((k + 1) as i64))
            &&& entries.len() < 0x7fff_ffff
            &&& forall|k: int|
                0 <= k < entries.len() ==> levels > 0 && ((#[trigger] entries[k]).1 matches Lua::Table(
                    inner,
                ) ==> inner > at) && fits(heap, entries[k].1, (levels - 1) as nat)
        },
        _ => is_plain_scalar(value),
    }
}

/// How many values there are in a value.
pub open spec fn weight(heap: Seq<LuaTable>, value: Lua, levels: nat) -> nat
    decreases levels, 0nat,
{
    match value {
        Lua::Table(at) => if at < heap.len() && levels > 0 {
            1 + entries_weight(heap, heap[at as int].entries@, (levels - 1) as nat)
        } else {
            1
        },
        _ => 1,
    }
}

/// How many values there are in the values of entries.
pub open spec fn entries_weight(heap: Seq<LuaTable>, entries: Seq<(Lua, Lua)>, levels: nat) -> nat
    decreases levels, entries.len() + 1,
{
    if entries.len() == 0 {
        0
    } else {
        weight(heap, entries[0].1, levels) + entries_weight(heap, entries.drop_first(), levels)
    }
}

proof fn item_is_next(items: Seq<(usize, JsonView)>, index: usize)
    requires
        index == items.len() + 1,
        forall|i: int| 0 <= i < items.len() ==> (#[trigger] items[i]).0 == i + 1,
    ensures
        item_place(items, index) == items.len(),
{
    item_place_is(items, index, items.len() as int);
}

proof fn fitting_entries_are_taken(
    heap: Seq<LuaTable>,
    all: Seq<(Lua, Lua)>,
    k: int,
    depth: nat,
    nodes: nat,
    active: Set<usize>,
    parts: TableParts,
    levels: nat,
    at: usize,
)
    requires
        depth + levels < LUA_RESULT_MAX_DEPTH,
        0 <= k <= all.len(),
        all.len() < 0x7fff_ffff,
        (parts.array.len() == 0 && (forall|j: int|
            0 <= j < all.len() ==> (#[trigger] all[j]).0 is Text)) || (parts.object.len() == 0
            && parts.array.len() == k && (forall|j: int|
            0 <= j < all.len() ==> (#[trigger] all[j]).0 == Lua::Integer((j + 1) as i64)) && (
        forall|j: int| 0 <= j < parts.array.len() ==> (#[trigger] parts.array[j]).0 == j + 1)),
        forall|j: int|
            0 <= j < all.len() ==> ((#[trigger] all[j]).1 matches Lua::Table(inner) ==> inner > at)
                && fits(heap, all[j].1, levels),
        forall|x: usize| #[trigger] active.contains(x) ==> x <= at,
        nodes + entries_weight(heap, all.skip(k), levels) <= LUA_RESULT_MAX_NODES,
    ensures
        ({
            let out = entries_converted(heap, all.skip(k), depth, nodes, active, parts);
            &&& out.0 is Ok
            &&& out.0->Ok_0.value() is Ok
            &&& out.1 == nodes + entries_weight(heap, all.skip(k), levels)
        }),
    decreases levels, 1nat, all.len() - k,
{
    let entries = all.skip(k);
    if k < all.len() {
        assert(entries[0] == all[k]);
        assert(entries.drop_first() =~= all.skip(k + 1));
        fitting_value_is_taken(heap, entries[0].1, depth + 1, nodes, active, levels);
        let (value, count) = converted(heap, entries[0].1, depth + 1, nodes, active);
        let json = value->Ok_0;
        if all[k].0 is Integer {
            item_is_next(parts.array, (k + 1) as usize);
            assert(all[k].0 == Lua::Integer((k + 1) as i64));
        }
        let more = parts.with(entries[0].0, json)->Ok_0;
        fitting_entries_are_taken(heap, all, k + 1, depth, count, active, more, levels, at);
    }
}

proof fn fitting_value_is_taken(
    heap: Seq<LuaTable>,
    value: Lua,
    depth: nat,
    nodes: nat,
    active: Set<usize>,
    levels: nat,
)
    requires
        depth + levels <= LUA_RESULT_MAX_DEPTH,
        fits(heap, value, levels),
        value matches Lua::Table(inner) ==> forall|x: usize| #[trigger]
            active.contains(x) ==> x < inner,
        nodes + weight(heap, value, levels) <= LUA_RESULT_MAX_NODES,
    ensures
        converted(heap, value, depth, nodes, active).0 is Ok,
        converted(heap, value, depth, nodes, active).1 == nodes + weight(heap, value, levels),
    decreases levels, 0nat, 0int,
{
    match value {
        Lua::Table(at) => {
            let entries = heap[at as int].entries@;
            let none = TableParts { object: Seq::empty(), array: Seq::empty() };
            assert(entries.skip(0) =~= entries);
            if levels > 0 {
                fitting_entries_are_taken(
                    heap,
                    entries,
                    0,
                    depth,
                    nodes + 1,
                    active.insert(at),
                    none,
                    (levels - 1) as nat,
                    at,
                );
            } else {
                if entries.len() > 0 {
                    assert(fits(heap, entries[0].1, 0) && levels > 0);
                }
            }
        },
        _ => {},
    }
}

/// What a script can hand over is taken, as long as it holds no more than 4096 values, nested at most
/// 32 levels deep.
pub proof fn fitting_values_are_taken(heap: Seq<LuaTable>, value: Lua)
    requires
        fits(heap, value, 32),
        weight(heap, value, 32) <= 4096,
    ensures
        converted(heap, value, 0, 0, Set::empty()).0 is Ok,
{
    fitting_value_is_taken(heap, value, 0, 0, Set::empty(), 32);
}

/// A table that is within itself is refused, and so is what JSON cannot say.
pub proof fn other_values_are_refused(heap: Seq<LuaTable>, value: Lua, active: Set<usize>)
    requires
        match value {
            Lua::Table(at) => active.contains(at),
            Lua::Number(n) => !is_finite(n.bits),
            Lua::BadText(_) | Lua::Other(_) => true,
            _ => false,
        },
    ensures
        forall|depth: nat, nodes: nat|
            (#[trigger] converted(heap, value, depth, nodes, active)).0 is Err,
{
}

/// The arguments of a command are the elements of a list from its first to the last before a gap, each
/// as its text. The first element that has none is what is wrong.
pub proof fn arguments_are_the_elements(entries: Seq<(Lua, Lua)>, index: int, limit: int)
    requires
        index <= limit + 1,
    ensures
        match scalar_texts(entries, index, limit) {
            Ok(texts) => {
                &&& forall|i: int|
                    0 <= i < texts.len() ==> scalar_text(element(entries, index + i)) == Ok::<
                        Seq<char>,
                        Seq<char>,
                    >(#[trigger] texts[i])
                &&& forall|i: int|
                    0 <= i < texts.len() ==> !(#[trigger] element(entries, index + i) is Nil)
                &&& index + texts.len() <= limit + 1
                &&& index + texts.len() <= limit ==> element(entries, index + texts.len()) is Nil
            },
            Err(message) => exists|i: int|
                index <= i <= limit && scalar_text(#[trigger] element(entries, i)) == Err::<
                    Seq<char>,
                    Seq<char>,
                >(message) && forall|j: int|
                    index <= j < i ==> scalar_text(#[trigger] element(entries, j)) is Ok,
        },
    decreases limit + 1 - index,
{
    if index <= limit && !(element(entries, index) is Nil) {
        match scalar_text(element(entries, index)) {
            Err(message) => {
                assert(scalar_text(element(entries, index)) == Err::<Seq<char>, Seq<char>>(
                    message,
                ));
            },
            Ok(text) => {
                arguments_are_the_elements(entries, index + 1, limit);
                match scalar_texts(entries, index + 1, limit) {
                    Ok(rest) => {
                        let texts = seq![text] + rest;
                        assert forall|i: int| 0 <= i < texts.len() implies scalar_text(
                            element(entries, index + i),
                        ) == Ok::<Seq<char>, Seq<char>>(#[trigger] texts[i]) by {
                            if i > 0 {
                                assert(texts[i] == rest[i - 1]);
                                assert(index + i == index + 1 + (i - 1));
                            }
                        }
                        assert forall|i: int| 0 <= i < texts.len() implies !(
                        #[trigger] element(entries, index + i) is Nil) by {
                            if i > 0 {
                                assert(!(element(entries, index + 1 + (i - 1)) is Nil));
                            }
                        }
                        assert(index + texts.len() == index + 1 + rest.len());
                    },
                    Err(message) => {
                        let i = choose|i: int|
                            index + 1 <= i <= limit && scalar_text(#[trigger] element(entries, i))
                                == Err::<Seq<char>, Seq<char>>(message) && forall|j: int|
                                index + 1 <= j < i ==> scalar_text(#[trigger] element(entries, j))
                                    is Ok;
                        assert(scalar_text(element(entries, i)) == Err::<Seq<char>, Seq<char>>(
                            message,
                        ));
                    },
                }
            },
        }
    }
}

/// Whether a key is this number.
pub open spec fn is_numbered(key: Lua, index: int) -> bool {
    key matches Lua::Integer(n) && n == index
}

/// An element of a list is what stands under its number.
pub proof fn element_is_what_is_numbered(entries: Seq<(Lua, Lua)>, index: int)
    ensures
        element(entries, index) is Nil || exists|i: int|
            0 <= i < entries.len() && is_numbered((#[trigger] entries[i]).0, index) && entries[i].1
                == element(entries, index),
        (forall|i: int|
            0 <= i < entries.len() ==> !is_numbered((#[trigger] entries[i]).0, index)) ==> element(
            entries,
            index,
        ) is Nil,
    decreases entries.len(),
{
    if entries.len() > 0 {
        let rest = entries.drop_first();
        if is_numbered(entries[0].0, index) {
            assert(entries[0].1 == element(entries, index));
        } else {
            element_is_what_is_numbered(rest, index);
            if !(element(entries, index) is Nil) {
                let i = choose|i: int|
                    0 <= i < rest.len() && is_numbered((#[trigger] rest[i]).0, index) && rest[i].1
                        == element(rest, index);
                assert(entries[i + 1] == rest[i]);
            }
        }
    }
}

/// A command takes texts as they are, numbers as they are written and truths by their names; it takes
/// nothing else.
pub proof fn scalars_are_written_out(value: Lua)
    ensures
        value matches Lua::Text(s) ==> scalar_text(value) == Ok::<Seq<char>, Seq<char>>(s@),
        value matches Lua::Number(n) ==> scalar_text(value) == Ok::<Seq<char>, Seq<char>>(n.text@),
        value matches Lua::Boolean(b) ==> scalar_text(value) == Ok::<Seq<char>, Seq<char>>(
            if b {
                "true"@
            } else {
                "false"@
            },
        ),
        value matches Lua::Integer(n) ==> (scalar_text(value) matches Ok(text) && if n < 0 {
            text[0] == '-' && number(text.drop_first(), u64::MAX as nat) == Some((-n) as nat)
        } else {
            number(text, u64::MAX as nat) == Some(n as nat)
        }),
        value is Nil || value is Table || value is Other || value is BadText ==> scalar_text(value)
            is Err,
{
    match value {
        Lua::Integer(n) => {
            reveal_strlit("-");
            decimal_reads_back(n as nat, u64::MAX as nat);
            decimal_reads_back((-n) as nat, u64::MAX as nat);
            if n < 0 {
                let text = "-"@ + decimal((-n) as nat);
                assert(text.drop_first() =~= decimal((-n) as nat));
            }
        },
        _ => {},
    }
}

/// A generation is given as a number, or as a number that is written out; nothing else is one.
pub proof fn generations_are_numbers(value: Lua, n: u64)
    ensures
        value matches Lua::Integer(i) ==> match generation_given(value) {
            Ok(found) => found == i,
            Err(_) => i < 0,
        },
        value matches Lua::Number(number) ==> match generation_given(value) {
            Ok(found) => number.natural == Some(found),
            Err(_) => number.natural is None,
        },
        value matches Lua::Text(s) && s@ == decimal(n as nat) ==> generation_given(value) == Ok::<
            u64,
            Seq<char>,
        >(n),
        value matches Lua::Text(s) ==> (generation_given(value) matches Ok(found) ==> number(
            s@,
            u64::MAX as nat,
        ) == Some(found as nat)),
        value is Nil || value is Boolean || value is Table || value is Other || value is BadText
            ==> generation_given(value) is Err,
{
    decimal_reads_back(n as nat, u64::MAX as nat);
}

/// A target is the one that its kind, its generation and its handle name, and there is one only where
/// all of them are given.
pub proof fn targets_are_as_given(draft: TargetDraft)
    ensures
        match target_given(draft) {
            Ok((kind, handle, generation)) => {
                &&& draft.kind matches Ok(name) && resource_kind_named(name@) == Some(kind)
                &&& draft.handle matches Ok(text) && text@ == handle
                &&& generation_given(draft.generation) == Ok::<u64, Seq<char>>(generation)
            },
            Err(_) => draft.kind is Err || resource_kind_named(draft.kind->Ok_0@) is None
                || draft.handle is Err || generation_given(draft.generation) is Err,
        },
{
}

/// Why a text is no number is told by what is wrong with it: nothing there, something that is no digit, or
/// too much.
pub proof fn wrong_numbers_tell_why(s: Seq<char>, n: nat, i: int)
    ensures
        number_error(Seq::empty()) == "cannot parse integer from empty string"@,
        0 <= i < s.len() && !('0' <= s[i] && s[i] <= '9') && (i > 0 || s[0] != '+') ==> number_error(
            s,
        ) == "invalid digit found in string"@,
        n > u64::MAX ==> number_error(decimal(n)) == "number too large to fit in target type"@,
{
    decimal_reads_back(n, n);
    crate::text::decimal_text_is_digits(n);
    if 0 <= i < s.len() && !('0' <= s[i] && s[i] <= '9') && (i > 0 || s[0] != '+') {
        if s[0] == '+' {
            assert(s.drop_first()[i - 1] == s[i]);
            assert(!crate::text::is_digit(s.drop_first()[i - 1]));
        } else {
            assert(!crate::text::is_digit(s[i]));
        }
    }
    assert(crate::text::is_digit(decimal(n)[0]));
}

}
