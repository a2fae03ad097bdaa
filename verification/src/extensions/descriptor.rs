//! Commands as scripts describe them.

use vstd::prelude::*;
use vstd::utf8::encode_utf8;
use super::command::ResourceKind;
use crate::text::{join, same_text, text_opt};

verus! {

/// What a command does to what it acts on.
#[derive(Clone, Copy, Debug, PartialEq, Eq, Structural)]
pub enum MutationClass {
    Read,
    Write,
    Destructive,
}

/// The type of an argument or a result.
#[derive(Clone, Copy, Debug, PartialEq, Eq, Structural)]
pub enum ValueType {
    Null,
    Boolean,
    Integer,
    Number,
    String,
    Enum,
    Array,
    Object,
    ResourceRef,
    Json,
}

/// Whether a backend offers a command.
#[derive(Clone, Copy, Debug, PartialEq, Eq, Structural)]
pub enum CatalogAvailability {
    Available,
    Conditional,
    Unsupported,
    Unavailable,
}

/// An argument as a script describes it.
#[derive(Debug)]
pub struct ArgumentDraft {
    pub name: String,
    pub value_type: Option<String>,
    pub required: Option<bool>,
    pub choices: Vec<String>,
    pub minimum: Option<i64>,
    pub maximum: Option<i64>,
    pub default: Option<String>,
    pub repeated: Option<bool>,
}

/// A result as a script describes it.
#[derive(Debug)]
pub struct SchemaDraft {
    pub value_type: Option<String>,
    pub properties: Vec<(String, SchemaDraft)>,
    pub items: Option<Box<SchemaDraft>>,
}

/// Where a command is offered, as a script describes it.
#[derive(Debug)]
pub struct AvailabilityDraft {
    pub core: Option<String>,
    pub native: Option<String>,
    pub rmux: Option<String>,
    pub tmux: Option<String>,
}

/// How a command is listed, as a script describes it.
#[derive(Debug)]
pub struct PaletteDraft {
    pub visible: Option<bool>,
    pub category: Option<String>,
    pub keywords: Vec<String>,
}

/// A command as a script describes it.
#[derive(Debug)]
pub struct DescriptorDraft {
    pub id: String,
    pub title: String,
    pub description: String,
    pub mutation: Option<String>,
    pub arguments: Vec<ArgumentDraft>,
    pub aliases: Vec<String>,
    pub result_schema: Option<SchemaDraft>,
    pub targets: Vec<String>,
    pub availability: Option<AvailabilityDraft>,
    pub target: Option<String>,
    pub palette: Option<bool>,
    pub palette_metadata: Option<PaletteDraft>,
}

/// An argument of a command.
#[derive(Debug)]
pub struct ArgumentSchema {
    pub name: String,
    pub value_type: ValueType,
    pub required: bool,
    pub choices: Vec<String>,
    pub minimum: Option<i64>,
    pub maximum: Option<i64>,
    pub default: Option<String>,
    pub repeated: bool,
}

/// The result of a command.
#[derive(Debug)]
pub struct CatalogResultSchema {
    pub value_type: ValueType,
    pub properties: Vec<(String, CatalogResultSchema)>,
    pub items: Option<Box<CatalogResultSchema>>,
}

/// Where a command is offered.
#[derive(Clone, Copy, Debug, PartialEq, Eq, Structural)]
pub struct BackendAvailability {
    pub core: CatalogAvailability,
    pub native: CatalogAvailability,
    pub rmux: CatalogAvailability,
    pub tmux: CatalogAvailability,
}

/// How a command is listed.
#[derive(Debug)]
pub struct CatalogPaletteMetadata {
    pub visible: bool,
    pub category: String,
    pub keywords: Vec<String>,
}

/// A command.
#[derive(Debug)]
pub struct CommandDescriptor {
    pub id: String,
    pub title: String,
    pub description: String,
    pub aliases: Vec<String>,
    pub mutation: MutationClass,
    pub arguments: Vec<ArgumentSchema>,
    pub result_schema: Option<CatalogResultSchema>,
    pub targets: Vec<ResourceKind>,
    pub availability: Option<BackendAvailability>,
    pub target: Option<ResourceKind>,
    pub palette: bool,
    pub palette_metadata: Option<CatalogPaletteMetadata>,
}

/// The type with a given name.
pub open spec fn value_type_named(name: Seq<char>) -> Option<ValueType> {
    if name == "null"@ {
        Some(ValueType::Null)
    } else if name == "boolean"@ {
        Some(ValueType::Boolean)
    } else if name == "integer"@ {
        Some(ValueType::Integer)
    } else if name == "number"@ {
        Some(ValueType::Number)
    } else if name == "string"@ {
        Some(ValueType::String)
    } else if name == "enum"@ {
        Some(ValueType::Enum)
    } else if name == "array"@ {
        Some(ValueType::Array)
    } else if name == "object"@ {
        Some(ValueType::Object)
    } else if name == "resource_ref"@ {
        Some(ValueType::ResourceRef)
    } else if name == "json"@ {
        Some(ValueType::Json)
    } else {
        None
    }
}

/// The type with a given name.
pub fn find_value_type(name: &str) -> (out: Option<ValueType>)
    ensures
        out == value_type_named(name@),
{
    if same_text(name, "null") {
        Some(ValueType::Null)
    } else if same_text(name, "boolean") {
        Some(ValueType::Boolean)
    } else if same_text(name, "integer") {
        Some(ValueType::Integer)
    } else if same_text(name, "number") {
        Some(ValueType::Number)
    } else if same_text(name, "string") {
        Some(ValueType::String)
    } else if same_text(name, "enum") {
        Some(ValueType::Enum)
    } else if same_text(name, "array") {
        Some(ValueType::Array)
    } else if same_text(name, "object") {
        Some(ValueType::Object)
    } else if same_text(name, "resource_ref") {
        Some(ValueType::ResourceRef)
    } else if same_text(name, "json") {
        Some(ValueType::Json)
    } else {
        None
    }
}

/// The kind of resource with a given name.
pub open spec fn resource_kind_named(name: Seq<char>) -> Option<ResourceKind> {
    if name == "instance"@ {
        Some(ResourceKind::Instance)
    } else if name == "application_window"@ {
        Some(ResourceKind::ApplicationWindow)
    } else if name == "binding"@ {
        Some(ResourceKind::Binding)
    } else if name == "space"@ {
        Some(ResourceKind::Space)
    } else if name == "session"@ {
        Some(ResourceKind::Session)
    } else if name == "mux_window"@ || name == "window"@ {
        Some(ResourceKind::MuxWindow)
    } else if name == "pane"@ {
        Some(ResourceKind::Pane)
    } else if name == "terminal"@ {
        Some(ResourceKind::Terminal)
    } else if name == "client"@ {
        Some(ResourceKind::Client)
    } else if name == "directory"@ {
        Some(ResourceKind::Directory)
    } else if name == "worktree"@ {
        Some(ResourceKind::Worktree)
    } else if name == "task"@ {
        Some(ResourceKind::Task)
    } else if name == "subscription"@ {
        Some(ResourceKind::Subscription)
    } else if name == "surface"@ {
        Some(ResourceKind::Surface)
    } else if name == "extension"@ {
        Some(ResourceKind::Extension)
    } else {
        None
    }
}

/// The kind of resource with a given name.
pub fn find_resource_kind(name: &str) -> (out: Option<ResourceKind>)
    ensures
        out == resource_kind_named(name@),
{
    if same_text(name, "instance") {
        Some(ResourceKind::Instance)
    } else if same_text(name, "application_window") {
        Some(ResourceKind::ApplicationWindow)
    } else if same_text(name, "binding") {
        Some(ResourceKind::Binding)
    } else if same_text(name, "space") {
        Some(ResourceKind::Space)
    } else if same_text(name, "session") {
        Some(ResourceKind::Session)
    } else if same_text(name, "mux_window") || same_text(name, "window") {
        Some(ResourceKind::MuxWindow)
    } else if same_text(name, "pane") {
        Some(ResourceKind::Pane)
    } else if same_text(name, "terminal") {
        Some(ResourceKind::Terminal)
    } else if same_text(name, "client") {
        Some(ResourceKind::Client)
    } else if same_text(name, "directory") {
        Some(ResourceKind::Directory)
    } else if same_text(name, "worktree") {
        Some(ResourceKind::Worktree)
    } else if same_text(name, "task") {
        Some(ResourceKind::Task)
    } else if same_text(name, "subscription") {
        Some(ResourceKind::Subscription)
    } else if same_text(name, "surface") {
        Some(ResourceKind::Surface)
    } else if same_text(name, "extension") {
        Some(ResourceKind::Extension)
    } else {
        None
    }
}

/// The availability with a given name.
pub open spec fn availability_named(name: Seq<char>) -> Option<CatalogAvailability> {
    if name == "available"@ {
        Some(CatalogAvailability::Available)
    } else if name == "conditional"@ {
        Some(CatalogAvailability::Conditional)
    } else if name == "unsupported"@ {
        Some(CatalogAvailability::Unsupported)
    } else if name == "unavailable"@ {
        Some(CatalogAvailability::Unavailable)
    } else {
        None
    }
}

/// The mutation class with a given name.
pub open spec fn mutation_named(name: Option<Seq<char>>) -> Option<MutationClass> {
    match name {
        None => Some(MutationClass::Read),
        Some(name) => if name == "read"@ {
            Some(MutationClass::Read)
        } else if name == "write"@ {
            Some(MutationClass::Write)
        } else if name == "destructive"@ {
            Some(MutationClass::Destructive)
        } else {
            None
        },
    }
}

/// A name, or the usual one where there is none.
pub open spec fn name_or(name: Option<String>, usual: Seq<char>) -> Seq<char> {
    match name {
        Some(s) => s@,
        None => usual,
    }
}

fn take_name(name: &Option<String>, usual: &str) -> (out: String)
    ensures
        out@ == name_or(*name, usual@),
{
    match name {
        Some(s) => s.clone(),
        None => usual.to_owned(),
    }
}

/// Whether a flag is set, where one that is missing counts as `usual`.
pub open spec fn flag_or(flag: Option<bool>, usual: bool) -> bool {
    match flag {
        Some(b) => b,
        None => usual,
    }
}

fn take_flag(flag: Option<bool>, usual: bool) -> (out: bool)
    ensures
        out == flag_or(flag, usual),
{
    match flag {
        Some(b) => b,
        None => usual,
    }
}

/// What is wrong with an argument; `None` where nothing is.
pub open spec fn argument_error(draft: ArgumentDraft) -> Option<Seq<char>> {
    if draft.name@.len() == 0 || encode_utf8(draft.name@).len() > 128 {
        Some("argument name is invalid"@)
    } else if value_type_named(name_or(draft.value_type, "string"@)) is None {
        Some("unknown argument type "@ + name_or(draft.value_type, "string"@))
    } else {
        None
    }
}

/// Whether an argument is the one that was described.
pub open spec fn argument_shows(argument: ArgumentSchema, draft: ArgumentDraft) -> bool {
    &&& argument.name == draft.name
    &&& Some(argument.value_type) == value_type_named(name_or(draft.value_type, "string"@))
    &&& argument.required == flag_or(draft.required, false)
    &&& argument.choices == draft.choices
    &&& argument.minimum == draft.minimum
    &&& argument.maximum == draft.maximum
    &&& argument.default == draft.default
    &&& argument.repeated == flag_or(draft.repeated, false)
}

fn lua_argument(draft: ArgumentDraft) -> (out: Result<ArgumentSchema, String>)
    ensures
        match out {
            Ok(argument) => argument_error(draft) is None && argument_shows(argument, draft),
            Err(message) => argument_error(draft) == Some(message@),
        },
{
    if draft.name.as_str().is_empty() || draft.name.as_str().as_bytes().len() > 128 {
        return Err("argument name is invalid".to_owned());
    }
    let wanted = take_name(&draft.value_type, "string");
    match find_value_type(&wanted) {
        None => Err(join("unknown argument type ", &wanted)),
        Some(value_type) => Ok(
            ArgumentSchema {
                name: draft.name,
                value_type,
                required: take_flag(draft.required, false),
                choices: draft.choices,
                minimum: draft.minimum,
                maximum: draft.maximum,
                default: draft.default,
                repeated: take_flag(draft.repeated, false),
            },
        ),
    }
}

/// The first thing that is wrong with a list of arguments.
pub open spec fn arguments_error(drafts: Seq<ArgumentDraft>) -> Option<Seq<char>>
    decreases drafts.len(),
{
    if drafts.len() == 0 {
        None
    } else if argument_error(drafts[0]) is Some {
        argument_error(drafts[0])
    } else {
        arguments_error(drafts.drop_first())
    }
}

fn lua_arguments_schema(drafts: Vec<ArgumentDraft>) -> (out: Result<Vec<ArgumentSchema>, String>)
    ensures
        match out {
            Ok(list) => arguments_error(drafts@) is None && list@.len() == drafts@.len() && forall|
                i: int,
            |
                0 <= i < list@.len() ==> argument_shows(#[trigger] list@[i], drafts@[i]),
            Err(message) => arguments_error(drafts@) == Some(message@),
        },
{
    let ghost all = drafts@;
    let mut rest = drafts;
    let mut list: Vec<ArgumentSchema> = Vec::new();
    assert(all.skip(0) =~= all);
    while rest.len() > 0
        invariant
            all == drafts@,
            list@.len() + rest@.len() == all.len(),
            rest@ == all.skip(list@.len() as int),
            arguments_error(rest@) == arguments_error(all),
            forall|i: int| 0 <= i < list@.len() ==> argument_shows(#[trigger] list@[i], all[i]),
        decreases rest@.len(),
    {
        let ghost before = rest@;
        let ghost n = list@.len() as int;
        let draft = rest.remove(0);
        assert(rest@ =~= before.drop_first());
        assert(draft == all[n]);
        match lua_argument(draft) {
            Err(message) => {
                return Err(message);
            },
            Ok(argument) => {
                list.push(argument);
            },
        }
        assert(rest@ =~= all.skip(n + 1));
    }
    Ok(list)
}

/// What is wrong with a described result; `None` where nothing is. The parts come before the whole.
pub open spec fn schema_error(draft: SchemaDraft) -> Option<Seq<char>>
    decreases draft, draft.properties@.len() + 1,
{
    let inner = properties_error(draft, draft.properties@.len() as nat);
    let item = match draft.items {
        Some(items) => schema_error(*items),
        None => None,
    };
    if inner is Some {
        inner
    } else if item is Some {
        item
    } else if value_type_named(name_or(draft.value_type, "json"@)) is None {
        Some("unknown result type "@ + name_or(draft.value_type, "json"@))
    } else {
        None
    }
}

/// What is wrong with the first `n` properties of a described result.
pub open spec fn properties_error(draft: SchemaDraft, n: nat) -> Option<Seq<char>>
    decreases draft, n,
    when n <= draft.properties@.len()
{
    if n == 0 {
        None
    } else {
        let before = properties_error(draft, (n - 1) as nat);
        if before is Some {
            before
        } else {
            schema_error(draft.properties@[n - 1].1)
        }
    }
}

/// Whether a result is the one that was described.
pub open spec fn schema_shows(schema: CatalogResultSchema, draft: SchemaDraft) -> bool
    decreases draft,
{
    &&& Some(schema.value_type) == value_type_named(name_or(draft.value_type, "json"@))
    &&& schema.properties@.len() == draft.properties@.len()
    &&& forall|i: int|
        0 <= i < draft.properties@.len() ==> (#[trigger] schema.properties@[i]).0
            == draft.properties@[i].0 && schema_shows(
            schema.properties@[i].1,
            draft.properties@[i].1,
        )
    &&& match (schema.items, draft.items) {
        (Some(item), Some(described)) => schema_shows(*item, *described),
        (None, None) => true,
        _ => false,
    }
}

/// The result that a script describes, or the first thing that is wrong with it.
pub fn lua_result_schema(draft: &SchemaDraft) -> (out: Result<CatalogResultSchema, String>)
    ensures
        match out {
            Ok(schema) => schema_error(*draft) is None && schema_shows(schema, *draft),
            Err(message) => schema_error(*draft) == Some(message@),
        },
    decreases draft,
{
    let mut properties: Vec<(String, CatalogResultSchema)> = Vec::new();
    let mut i: usize = 0;
    while i < draft.properties.len()
        invariant
            i <= draft.properties@.len(),
            properties@.len() == i,
            properties_error(*draft, i as nat) is None,
            forall|j: int|
                0 <= j < i ==> (#[trigger] properties@[j]).0 == draft.properties@[j].0
                    && schema_shows(properties@[j].1, draft.properties@[j].1),
        decreases draft.properties@.len() - i,
    {
        let (name, property) = &draft.properties[i];
        assert(decreases_to!(*draft => draft.properties@[i as int].1));
        match lua_result_schema(property) {
            Err(message) => {
                proof {
                    properties_error_first(*draft, i as nat + 1, draft.properties@.len());
                }
                return Err(message);
            },
            Ok(schema) => {
                properties.push((name.clone(), schema));
            },
        }
        i = i + 1;
    }
    let items = match &draft.items {
        None => None,
        Some(described) => match lua_result_schema(described) {
            Err(message) => {
                return Err(message);
            },
            Ok(schema) => Some(Box::new(schema)),
        },
    };
    let wanted = take_name(&draft.value_type, "json");
    match find_value_type(&wanted) {
        None => Err(join("unknown result type ", &wanted)),
        Some(value_type) => Ok(CatalogResultSchema { value_type, properties, items }),
    }
}

proof fn properties_error_first(draft: SchemaDraft, n: nat, m: nat)
    requires
        n <= m <= draft.properties@.len(),
        properties_error(draft, n) is Some,
    ensures
        properties_error(draft, m) == properties_error(draft, n),
    decreases m - n,
{
    if n < m {
        properties_error_first(draft, n, (m - 1) as nat);
    }
}

/// What is wrong with a list of targets: the first unknown one.
pub open spec fn targets_error(names: Seq<String>) -> Option<Seq<char>>
    decreases names.len(),
{
    if names.len() == 0 {
        None
    } else if resource_kind_named(names[0]@) is None {
        Some("unknown command target "@ + names[0]@)
    } else {
        targets_error(names.drop_first())
    }
}

fn lua_catalog_targets(names: &Vec<String>) -> (out: Result<Vec<ResourceKind>, String>)
    ensures
        match out {
            Ok(list) => targets_error(names@) is None && list@.len() == names@.len() && forall|i: int|
                0 <= i < list@.len() ==> Some(#[trigger] list@[i]) == resource_kind_named(
                    names@[i]@,
                ),
            Err(message) => targets_error(names@) == Some(message@),
        },
{
    let mut list: Vec<ResourceKind> = Vec::new();
    let mut i: usize = 0;
    assert(names@.skip(0) =~= names@);
    while i < names.len()
        invariant
            i <= names@.len(),
            list@.len() == i,
            targets_error(names@.skip(i as int)) == targets_error(names@),
            forall|j: int|
                0 <= j < i ==> Some(#[trigger] list@[j]) == resource_kind_named(names@[j]@),
        decreases names@.len() - i,
    {
        assert(names@.skip(i as int)[0] == names@[i as int]);
        assert(names@.skip(i as int).drop_first() =~= names@.skip(i + 1));
        match find_resource_kind(&names[i]) {
            None => {
                return Err(join("unknown command target ", &names[i]));
            },
            Some(kind) => {
                list.push(kind);
            },
        }
        i = i + 1;
    }
    Ok(list)
}

/// What is wrong with an availability; `None` where nothing is.
pub open spec fn availability_error(name: Option<String>) -> Option<Seq<char>> {
    if availability_named(name_or(name, "available"@)) is None {
        Some("unknown backend availability "@ + name_or(name, "available"@))
    } else {
        None
    }
}

fn lua_catalog_availability(name: &Option<String>) -> (out: Result<CatalogAvailability, String>)
    ensures
        match out {
            Ok(found) => availability_error(*name) is None && availability_named(
                name_or(*name, "available"@),
            ) == Some(found),
            Err(message) => availability_error(*name) == Some(message@),
        },
{
    let wanted = take_name(name, "available");
    if same_text(&wanted, "available") {
        Ok(CatalogAvailability::Available)
    } else if same_text(&wanted, "conditional") {
        Ok(CatalogAvailability::Conditional)
    } else if same_text(&wanted, "unsupported") {
        Ok(CatalogAvailability::Unsupported)
    } else if same_text(&wanted, "unavailable") {
        Ok(CatalogAvailability::Unavailable)
    } else {
        Err(join("unknown backend availability ", &wanted))
    }
}

/// The first of two errors.
pub open spec fn first_text(a: Option<Seq<char>>, b: Option<Seq<char>>) -> Option<Seq<char>> {
    if a is Some {
        a
    } else {
        b
    }
}

/// What is wrong with where a command is offered; `None` where nothing is.
pub open spec fn backends_error(draft: AvailabilityDraft) -> Option<Seq<char>> {
    first_text(
        availability_error(draft.core),
        first_text(
            availability_error(draft.native),
            first_text(availability_error(draft.rmux), availability_error(draft.tmux)),
        ),
    )
}

/// Whether a command is offered as described.
pub open spec fn backends_show(found: BackendAvailability, draft: AvailabilityDraft) -> bool {
    &&& Some(found.core) == availability_named(name_or(draft.core, "available"@))
    &&& Some(found.native) == availability_named(name_or(draft.native, "available"@))
    &&& Some(found.rmux) == availability_named(name_or(draft.rmux, "available"@))
    &&& Some(found.tmux) == availability_named(name_or(draft.tmux, "available"@))
}

fn lua_backends(draft: &AvailabilityDraft) -> (out: Result<BackendAvailability, String>)
    ensures
        match out {
            Ok(found) => backends_error(*draft) is None && backends_show(found, *draft),
            Err(message) => backends_error(*draft) == Some(message@),
        },
{
    let core = match lua_catalog_availability(&draft.core) {
        Ok(found) => found,
        Err(message) => {
            return Err(message);
        },
    };
    let native = match lua_catalog_availability(&draft.native) {
        Ok(found) => found,
        Err(message) => {
            return Err(message);
        },
    };
    let rmux = match lua_catalog_availability(&draft.rmux) {
        Ok(found) => found,
        Err(message) => {
            return Err(message);
        },
    };
    let tmux = match lua_catalog_availability(&draft.tmux) {
        Ok(found) => found,
        Err(message) => {
            return Err(message);
        },
    };
    Ok(BackendAvailability { core, native, rmux, tmux })
}

/// What is wrong with a described command; `None` where nothing is.
pub open spec fn descriptor_error(draft: DescriptorDraft) -> Option<Seq<char>> {
    if mutation_named(text_opt(draft.mutation)) is None {
        Some("mutation must be read, write, or destructive"@)
    } else {
        first_text(
            arguments_error(draft.arguments@),
            first_text(
                match draft.result_schema {
                    Some(schema) => schema_error(schema),
                    None => None,
                },
                first_text(
                    targets_error(draft.targets@),
                    first_text(
                        match draft.availability {
                            Some(availability) => backends_error(availability),
                            None => None,
                        },
                        match draft.target {
                            Some(name) => if resource_kind_named(name@) is None {
                                Some("unknown resource target "@ + name@)
                            } else {
                                None
                            },
                            None => None,
                        },
                    ),
                ),
            ),
        )
    }
}

/// Whether a command is the one that was described.
pub open spec fn descriptor_shows(command: CommandDescriptor, draft: DescriptorDraft) -> bool {
    &&& command.id == draft.id
    &&& command.title == draft.title
    &&& command.description == draft.description
    &&& command.aliases == draft.aliases
    &&& Some(command.mutation) == mutation_named(text_opt(draft.mutation))
    &&& command.arguments@.len() == draft.arguments@.len()
    &&& forall|i: int|
        0 <= i < command.arguments@.len() ==> argument_shows(
            #[trigger] command.arguments@[i],
            draft.arguments@[i],
        )
    &&& match (command.result_schema, draft.result_schema) {
        (Some(schema), Some(described)) => schema_shows(schema, described),
        (None, None) => true,
        _ => false,
    }
    &&& command.targets@.len() == draft.targets@.len()
    &&& forall|i: int|
        0 <= i < command.targets@.len() ==> Some(#[trigger] command.targets@[i])
            == resource_kind_named(draft.targets@[i]@)
    &&& match (command.availability, draft.availability) {
        (Some(found), Some(described)) => backends_show(found, described),
        (None, None) => true,
        _ => false,
    }
    &&& match (command.target, draft.target) {
        (Some(kind), Some(name)) => Some(kind) == resource_kind_named(name@),
        (None, None) => true,
        _ => false,
    }
    &&& command.palette == flag_or(draft.palette, false)
    &&& match (command.palette_metadata, draft.palette_metadata) {
        (Some(found), Some(described)) => found.visible == flag_or(described.visible, true)
            && found.category@ == name_or(described.category, "extensions"@) && found.keywords
            == described.keywords,
        (None, None) => true,
        _ => false,
    }
}

/// The command that a script describes, or the first thing that is wrong with the description.
pub fn lua_descriptor(draft: DescriptorDraft) -> (out: Result<CommandDescriptor, String>)
    ensures
        match out {
            Ok(command) => descriptor_error(draft) is None && descriptor_shows(command, draft),
            Err(message) => descriptor_error(draft) == Some(message@),
        },
{
    let mutation = match &draft.mutation {
        None => MutationClass::Read,
        Some(name) => if same_text(name, "read") {
            MutationClass::Read
        } else if same_text(name, "write") {
            MutationClass::Write
        } else if same_text(name, "destructive") {
            MutationClass::Destructive
        } else {
            return Err("mutation must be read, write, or destructive".to_owned());
        },
    };
    let arguments = match lua_arguments_schema(draft.arguments) {
        Ok(list) => list,
        Err(message) => {
            return Err(message);
        },
    };
    let result_schema = match &draft.result_schema {
        None => None,
        Some(described) => match lua_result_schema(described) {
            Ok(schema) => Some(schema),
            Err(message) => {
                return Err(message);
            },
        },
    };
    let targets = match lua_catalog_targets(&draft.targets) {
        Ok(list) => list,
        Err(message) => {
            return Err(message);
        },
    };
    let availability = match &draft.availability {
        None => None,
        Some(described) => match lua_backends(described) {
            Ok(found) => Some(found),
            Err(message) => {
                return Err(message);
            },
        },
    };
    let target = match &draft.target {
        None => None,
        Some(name) => match find_resource_kind(name) {
            Some(kind) => Some(kind),
            None => {
                return Err(join("unknown resource target ", name));
            },
        },
    };
    let palette_metadata = match draft.palette_metadata {
        None => None,
        Some(described) => Some(
            CatalogPaletteMetadata {
                visible: take_flag(described.visible, true),
                category: take_name(&described.category, "extensions"),
                keywords: described.keywords,
            },
        ),
    };
    Ok(
        CommandDescriptor {
            id: draft.id,
            title: draft.title,
            description: draft.description,
            aliases: draft.aliases,
            mutation,
            arguments,
            result_schema,
            targets,
            availability,
            target,
            palette: take_flag(draft.palette, false),
            palette_metadata,
        },
    )
}

/// A description says how a command changes things in one word: the class is the one of that name, and
/// a description that says nothing is of one that only reads.
pub proof fn mutation_is_as_described(name: Option<Seq<char>>)
    ensures
        mutation_named(name) == Some(MutationClass::Destructive) <==> name == Some(
            "destructive"@,
        ),
        mutation_named(name) == Some(MutationClass::Write) <==> name == Some("write"@),
        mutation_named(name) == Some(MutationClass::Read) <==> name is None || name == Some(
            "read"@,
        ),
{
    reveal_strlit("read");
    reveal_strlit("write");
    reveal_strlit("destructive");
    assert("read"@.len() != "write"@.len());
    assert("read"@.len() != "destructive"@.len());
    assert("write"@.len() != "destructive"@.len());
}

/// Each type has one name.
pub proof fn value_types_have_their_names(name: Seq<char>)
    ensures
        value_type_named(name) == Some(ValueType::Null) <==> name == "null"@,
        value_type_named(name) == Some(ValueType::Boolean) <==> name == "boolean"@,
        value_type_named(name) == Some(ValueType::Integer) <==> name == "integer"@,
        value_type_named(name) == Some(ValueType::Number) <==> name == "number"@,
        value_type_named(name) == Some(ValueType::String) <==> name == "string"@,
        value_type_named(name) == Some(ValueType::Enum) <==> name == "enum"@,
        value_type_named(name) == Some(ValueType::Array) <==> name == "array"@,
        value_type_named(name) == Some(ValueType::Object) <==> name == "object"@,
        value_type_named(name) == Some(ValueType::ResourceRef) <==> name == "resource_ref"@,
        value_type_named(name) == Some(ValueType::Json) <==> name == "json"@,
{
    reveal_strlit("null");
    reveal_strlit("boolean");
    reveal_strlit("integer");
    reveal_strlit("number");
    reveal_strlit("string");
    reveal_strlit("enum");
    reveal_strlit("array");
    reveal_strlit("object");
    reveal_strlit("resource_ref");
    reveal_strlit("json");
    assert("null"@.len() != "boolean"@.len());
    assert("null"@.len() != "integer"@.len());
    assert("null"@.len() != "number"@.len());
    assert("null"@.len() != "string"@.len());
    assert("null"@[0] != "enum"@[0]);
    assert("null"@.len() != "array"@.len());
    assert("null"@.len() != "object"@.len());
    assert("null"@.len() != "resource_ref"@.len());
    assert("null"@[0] != "json"@[0]);
    assert("boolean"@[0] != "integer"@[0]);
    assert("boolean"@.len() != "number"@.len());
    assert("boolean"@.len() != "string"@.len());
    assert("boolean"@.len() != "enum"@.len());
    assert("boolean"@.len() != "array"@.len());
    assert("boolean"@.len() != "object"@.len());
    assert("boolean"@.len() != "resource_ref"@.len());
    assert("boolean"@.len() != "json"@.len());
    assert("integer"@.len() != "number"@.len());
    assert("integer"@.len() != "string"@.len());
    assert("integer"@.len() != "enum"@.len());
    assert("integer"@.len() != "array"@.len());
    assert("integer"@.len() != "object"@.len());
    assert("integer"@.len() != "resource_ref"@.len());
    assert("integer"@.len() != "json"@.len());
    assert("number"@[0] != "string"@[0]);
    assert("number"@.len() != "enum"@.len());
    assert("number"@.len() != "array"@.len());
    assert("number"@[0] != "object"@[0]);
    assert("number"@.len() != "resource_ref"@.len());
    assert("number"@.len() != "json"@.len());
    assert("string"@.len() != "enum"@.len());
    assert("string"@.len() != "array"@.len());
    assert("string"@[0] != "object"@[0]);
    assert("string"@.len() != "resource_ref"@.len());
    assert("string"@.len() != "json"@.len());
    assert("enum"@.len() != "array"@.len());
    assert("enum"@.len() != "object"@.len());
    assert("enum"@.len() != "resource_ref"@.len());
    assert("enum"@[0] != "json"@[0]);
    assert("array"@.len() != "object"@.len());
    assert("array"@.len() != "resource_ref"@.len());
    assert("array"@.len() != "json"@.len());
    assert("object"@.len() != "resource_ref"@.len());
    assert("object"@.len() != "json"@.len());
    assert("resource_ref"@.len() != "json"@.len());
}

/// Each kind of resource has one name, but for the windows of a multiplexer, which have two.
pub proof fn resource_kinds_have_their_names(name: Seq<char>)
    ensures
        resource_kind_named(name) == Some(ResourceKind::Instance) <==> name == "instance"@,
        resource_kind_named(name) == Some(ResourceKind::ApplicationWindow) <==> name == "application_window"@,
        resource_kind_named(name) == Some(ResourceKind::Binding) <==> name == "binding"@,
        resource_kind_named(name) == Some(ResourceKind::Space) <==> name == "space"@,
        resource_kind_named(name) == Some(ResourceKind::Session) <==> name == "session"@,
        resource_kind_named(name) == Some(ResourceKind::Pane) <==> name == "pane"@,
        resource_kind_named(name) == Some(ResourceKind::Terminal) <==> name == "terminal"@,
        resource_kind_named(name) == Some(ResourceKind::Client) <==> name == "client"@,
        resource_kind_named(name) == Some(ResourceKind::Directory) <==> name == "directory"@,
        resource_kind_named(name) == Some(ResourceKind::Worktree) <==> name == "worktree"@,
        resource_kind_named(name) == Some(ResourceKind::Task) <==> name == "task"@,
        resource_kind_named(name) == Some(ResourceKind::Subscription) <==> name == "subscription"@,
        resource_kind_named(name) == Some(ResourceKind::Surface) <==> name == "surface"@,
        resource_kind_named(name) == Some(ResourceKind::Extension) <==> name == "extension"@,
        resource_kind_named(name) == Some(ResourceKind::MuxWindow) <==> name == "mux_window"@
            || name == "window"@,
{
    reveal_strlit("instance");
    reveal_strlit("application_window");
    reveal_strlit("binding");
    reveal_strlit("space");
    reveal_strlit("session");
    reveal_strlit("pane");
    reveal_strlit("terminal");
    reveal_strlit("client");
    reveal_strlit("directory");
    reveal_strlit("worktree");
    reveal_strlit("task");
    reveal_strlit("subscription");
    reveal_strlit("surface");
    reveal_strlit("extension");
    reveal_strlit("mux_window");
    reveal_strlit("window");
    assert("instance"@.len() != "application_window"@.len());
    assert("instance"@.len() != "binding"@.len());
    assert("instance"@.len() != "space"@.len());
    assert("instance"@.len() != "session"@.len());
    assert("instance"@.len() != "pane"@.len());
    assert("instance"@[0] != "terminal"@[0]);
    assert("instance"@.len() != "client"@.len());
    assert("instance"@.len() != "directory"@.len());
    assert("instance"@[0] != "worktree"@[0]);
    assert("instance"@.len() != "task"@.len());
    assert("instance"@.len() != "subscription"@.len());
    assert("instance"@.len() != "surface"@.len());
    assert("instance"@.len() != "extension"@.len());
    assert("instance"@.len() != "mux_window"@.len());
    assert("instance"@.len() != "window"@.len());
    assert("application_window"@.len() != "binding"@.len());
    assert("application_window"@.len() != "space"@.len());
    assert("application_window"@.len() != "session"@.len());
    assert("application_window"@.len() != "pane"@.len());
    assert("application_window"@.len() != "terminal"@.len());
    assert("application_window"@.len() != "client"@.len());
    assert("application_window"@.len() != "directory"@.len());
    assert("application_window"@.len() != "worktree"@.len());
    assert("application_window"@.len() != "task"@.len());
    assert("application_window"@.len() != "subscription"@.len());
    assert("application_window"@.len() != "surface"@.len());
    assert("application_window"@.len() != "extension"@.len());
    assert("application_window"@.len() != "mux_window"@.len());
    assert("application_window"@.len() != "window"@.len());
    assert("binding"@.len() != "space"@.len());
    assert("binding"@[0] != "session"@[0]);
    assert("binding"@.len() != "pane"@.len());
    assert("binding"@.len() != "terminal"@.len());
    assert("binding"@.len() != "client"@.len());
    assert("binding"@.len() != "directory"@.len());
    assert("binding"@.len() != "worktree"@.len());
    assert("binding"@.len() != "task"@.len());
    assert("binding"@.len() != "subscription"@.len());
    assert("binding"@[0] != "surface"@[0]);
    assert("binding"@.len() != "extension"@.len());
    assert("binding"@.len() != "mux_window"@.len());
    assert("binding"@.len() != "window"@.len());
    assert("space"@.len() != "session"@.len());
    assert("space"@.len() != "pane"@.len());
    assert("space"@.len() != "terminal"@.len());
    assert("space"@.len() != "client"@.len());
    assert("space"@.len() != "directory"@.len());
    assert("space"@.len() != "worktree"@.len());
    assert("space"@.len() != "task"@.len());
    assert("space"@.len() != "subscription"@.len());
    assert("space"@.len() != "surface"@.len());
    assert("space"@.len() != "extension"@.len());
    assert("space"@.len() != "mux_window"@.len());
    assert("space"@.len() != "window"@.len());
    assert("session"@.len() != "pane"@.len());
    assert("session"@.len() != "terminal"@.len());
    assert("session"@.len() != "client"@.len());
    assert("session"@.len() != "directory"@.len());
    assert("session"@.len() != "worktree"@.len());
    assert("session"@.len() != "task"@.len());
    assert("session"@.len() != "subscription"@.len());
    assert("session"@[1] != "surface"@[1]);
    assert("session"@.len() != "extension"@.len());
    assert("session"@.len() != "mux_window"@.len());
    assert("session"@.len() != "window"@.len());
    assert("pane"@.len() != "terminal"@.len());
    assert("pane"@.len() != "client"@.len());
    assert("pane"@.len() != "directory"@.len());
    assert("pane"@.len() != "worktree"@.len());
    assert("pane"@[0] != "task"@[0]);
    assert("pane"@.len() != "subscription"@.len());
    assert("pane"@.len() != "surface"@.len());
    assert("pane"@.len() != "extension"@.len());
    assert("pane"@.len() != "mux_window"@.len());
    assert("pane"@.len() != "window"@.len());
    assert("terminal"@.len() != "client"@.len());
    assert("terminal"@.len() != "directory"@.len());
    assert("terminal"@[0] != "worktree"@[0]);
    assert("terminal"@.len() != "task"@.len());
    assert("terminal"@.len() != "subscription"@.len());
    assert("terminal"@.len() != "surface"@.len());
    assert("terminal"@.len() != "extension"@.len());
    assert("terminal"@.len() != "mux_window"@.len());
    assert("terminal"@.len() != "window"@.len());
    assert("client"@.len() != "directory"@.len());
    assert("client"@.len() != "worktree"@.len());
    assert("client"@.len() != "task"@.len());
    assert("client"@.len() != "subscription"@.len());
    assert("client"@.len() != "surface"@.len());
    assert("client"@.len() != "extension"@.len());
    assert("client"@.len() != "mux_window"@.len());
    assert("client"@[0] != "window"@[0]);
    assert("directory"@.len() != "worktree"@.len());
    assert("directory"@.len() != "task"@.len());
    assert("directory"@.len() != "subscription"@.len());
    assert("directory"@.len() != "surface"@.len());
    assert("directory"@[0] != "extension"@[0]);
    assert("directory"@.len() != "mux_window"@.len());
    assert("directory"@.len() != "window"@.len());
    assert("worktree"@.len() != "task"@.len());
    assert("worktree"@.len() != "subscription"@.len());
    assert("worktree"@.len() != "surface"@.len());
    assert("worktree"@.len() != "extension"@.len());
    assert("worktree"@.len() != "mux_window"@.len());
    assert("worktree"@.len() != "window"@.len());
    assert("task"@.len() != "subscription"@.len());
    assert("task"@.len() != "surface"@.len());
    assert("task"@.len() != "extension"@.len());
    assert("task"@.len() != "mux_window"@.len());
    assert("task"@.len() != "window"@.len());
    assert("subscription"@.len() != "surface"@.len());
    assert("subscription"@.len() != "extension"@.len());
    assert("subscription"@.len() != "mux_window"@.len());
    assert("subscription"@.len() != "window"@.len());
    assert("surface"@.len() != "extension"@.len());
    assert("surface"@.len() != "mux_window"@.len());
    assert("surface"@.len() != "window"@.len());
    assert("extension"@.len() != "mux_window"@.len());
    assert("extension"@.len() != "window"@.len());
    assert("mux_window"@.len() != "window"@.len());
}

/// Each availability has one name.
pub proof fn availabilities_have_their_names(name: Seq<char>)
    ensures
        availability_named(name) == Some(CatalogAvailability::Available) <==> name == "available"@,
        availability_named(name) == Some(CatalogAvailability::Conditional) <==> name == "conditional"@,
        availability_named(name) == Some(CatalogAvailability::Unsupported) <==> name == "unsupported"@,
        availability_named(name) == Some(CatalogAvailability::Unavailable) <==> name == "unavailable"@,
{
    reveal_strlit("available");
    reveal_strlit("conditional");
    reveal_strlit("unsupported");
    reveal_strlit("unavailable");
    assert("available"@.len() != "conditional"@.len());
    assert("available"@.len() != "unsupported"@.len());
    assert("available"@.len() != "unavailable"@.len());
    assert("conditional"@[0] != "unsupported"@[0]);
    assert("conditional"@[0] != "unavailable"@[0]);
    assert("unsupported"@[2] != "unavailable"@[2]);
}

/// A command is registered as it was described: it is called what the description calls it, changes
/// what the description says that it changes, and takes the arguments in the order of the
/// description. What the description leaves out is the harmless thing: an argument is a text that may
/// be left out and comes once, the command is offered everywhere, and is not listed.
pub proof fn command_is_as_described(command: CommandDescriptor, draft: DescriptorDraft)
    requires
        descriptor_shows(command, draft),
    ensures
        command.id@ == draft.id@,
        command.title@ == draft.title@,
        command.description@ == draft.description@,
        command.aliases@ == draft.aliases@,
        command.mutation is Destructive <==> draft.mutation is Some && draft.mutation.unwrap()@
            == "destructive"@,
        command.mutation is Write <==> draft.mutation is Some && draft.mutation.unwrap()@
            == "write"@,
        command.arguments@.len() == draft.arguments@.len(),
        forall|i: int|
            0 <= i < draft.arguments@.len() ==> {
                let argument = #[trigger] command.arguments@[i];
                let described = draft.arguments@[i];
                &&& argument.name@ == described.name@
                &&& argument.choices@ == described.choices@
                &&& argument.minimum == described.minimum
                &&& argument.maximum == described.maximum
                &&& argument.default == described.default
                &&& argument.required <==> described.required == Some(true)
                &&& argument.repeated <==> described.repeated == Some(true)
                &&& described.value_type is None ==> argument.value_type is String
                &&& described.value_type matches Some(name) ==> value_type_named(name@) == Some(
                    argument.value_type,
                )
            },
        command.targets@.len() == draft.targets@.len(),
        command.target is Some <==> draft.target is Some,
        command.palette <==> draft.palette == Some(true),
        draft.palette_metadata matches Some(described) ==> (command.palette_metadata matches Some(
            found,
        ) && (found.visible <==> described.visible != Some(false)) && found.keywords@
            == described.keywords@ && (described.category is None ==> found.category@
            == "extensions"@) && (described.category matches Some(name) ==> found.category@
            == name@)),
        draft.palette_metadata is None ==> command.palette_metadata is None,
        draft.availability matches Some(described) ==> (command.availability matches Some(found) && {
            &&& described.core is None ==> found.core is Available
            &&& described.native is None ==> found.native is Available
            &&& described.rmux is None ==> found.rmux is Available
            &&& described.tmux is None ==> found.tmux is Available
            &&& described.core matches Some(name) ==> availability_named(name@) == Some(found.core)
            &&& described.native matches Some(name) ==> availability_named(name@) == Some(
                found.native,
            )
            &&& described.rmux matches Some(name) ==> availability_named(name@) == Some(found.rmux)
            &&& described.tmux matches Some(name) ==> availability_named(name@) == Some(found.tmux)
        }),
        draft.availability is None ==> command.availability is None,
{
    mutation_is_as_described(text_opt(draft.mutation));
    value_types_have_their_names("string"@);
    availabilities_have_their_names("available"@);
    assert forall|i: int| 0 <= i < draft.arguments@.len() implies {
        let argument = #[trigger] command.arguments@[i];
        let described = draft.arguments@[i];
        &&& argument.name@ == described.name@
        &&& argument.choices@ == described.choices@
        &&& argument.minimum == described.minimum
        &&& argument.maximum == described.maximum
        &&& argument.default == described.default
        &&& argument.required <==> described.required == Some(true)
        &&& argument.repeated <==> described.repeated == Some(true)
        &&& described.value_type is None ==> argument.value_type is String
        &&& described.value_type matches Some(name) ==> value_type_named(name@) == Some(
            argument.value_type,
        )
    } by {
        assert(argument_shows(command.arguments@[i], draft.arguments@[i]));
    }
}

proof fn all_arguments_are_good(drafts: Seq<ArgumentDraft>)
    ensures
        arguments_error(drafts) is None <==> forall|i: int|
            0 <= i < drafts.len() ==> argument_error(#[trigger] drafts[i]) is None,
    decreases drafts.len(),
{
    if drafts.len() > 0 {
        let rest = drafts.drop_first();
        all_arguments_are_good(rest);
        assert forall|i: int| 0 <= i < rest.len() implies #[trigger] rest[i] == drafts[i + 1] by {}
        if arguments_error(drafts) is None {
            assert forall|i: int| 0 <= i < drafts.len() implies argument_error(
                #[trigger] drafts[i],
            ) is None by {
                if i > 0 {
                    assert(drafts[i] == rest[i - 1]);
                }
            }
        }
        if forall|i: int| 0 <= i < drafts.len() ==> argument_error(#[trigger] drafts[i]) is None {
            assert(argument_error(drafts[0]) is None);
        }
    }
}

proof fn all_targets_are_known(names: Seq<String>)
    ensures
        targets_error(names) is None <==> forall|i: int|
            0 <= i < names.len() ==> resource_kind_named((#[trigger] names[i])@) is Some,
    decreases names.len(),
{
    if names.len() > 0 {
        let rest = names.drop_first();
        all_targets_are_known(rest);
        assert forall|i: int| 0 <= i < rest.len() implies #[trigger] rest[i] == names[i + 1] by {}
        if targets_error(names) is None {
            assert forall|i: int| 0 <= i < names.len() implies resource_kind_named(
                (#[trigger] names[i])@,
            ) is Some by {
                if i > 0 {
                    assert(names[i] == rest[i - 1]);
                }
            }
        }
        if forall|i: int| 0 <= i < names.len() ==> resource_kind_named((#[trigger] names[i])@)
            is Some {
            assert(resource_kind_named(names[0]@) is Some);
        }
    }
}

proof fn all_properties_are_good(draft: SchemaDraft, n: nat)
    requires
        n <= draft.properties@.len(),
    ensures
        properties_error(draft, n) is None <==> forall|i: int|
            0 <= i < n ==> schema_error((#[trigger] draft.properties@[i]).1) is None,
    decreases n,
{
    if n > 0 {
        all_properties_are_good(draft, (n - 1) as nat);
    }
}

/// A name of an argument is good where it is not empty and at most 128 bytes long, and a type where it is
/// known; without one the argument is a text.
pub proof fn good_arguments_are_taken(draft: ArgumentDraft)
    ensures
        argument_error(draft) is None <==> {
            &&& 0 < draft.name@.len()
            &&& encode_utf8(draft.name@).len() <= 128
            &&& draft.value_type matches Some(name) ==> value_type_named(name@) is Some
        },
{
    value_types_have_their_names("string"@);
}

/// The schema of a result is good where its type is known and so are those of its properties and its items;
/// without a type it is any JSON value.
pub proof fn good_schemas_are_taken(draft: SchemaDraft)
    ensures
        schema_error(draft) is None <==> {
            &&& draft.value_type matches Some(name) ==> value_type_named(name@) is Some
            &&& forall|i: int|
                0 <= i < draft.properties@.len() ==> schema_error((#[trigger] draft.properties@[i]).1)
                    is None
            &&& draft.items matches Some(items) ==> schema_error(*items) is None
        },
{
    value_types_have_their_names("json"@);
    all_properties_are_good(draft, draft.properties@.len() as nat);
}

/// A schema is as it was described: in its type, and in the name and the schema of each of its properties
/// and of its items.
pub proof fn schema_is_as_described(schema: CatalogResultSchema, draft: SchemaDraft, i: int)
    requires
        schema_shows(schema, draft),
    ensures
        draft.value_type is None ==> schema.value_type is Json,
        draft.value_type matches Some(name) ==> value_type_named(name@) == Some(schema.value_type),
        schema.properties@.len() == draft.properties@.len(),
        0 <= i < draft.properties@.len() ==> schema.properties@[i].0 == draft.properties@[i].0
            && schema_shows(schema.properties@[i].1, draft.properties@[i].1),
        schema.items is Some <==> draft.items is Some,
        draft.items is Some ==> schema_shows(*schema.items->Some_0, *draft.items->Some_0),
{
    value_types_have_their_names("json"@);
    if 0 <= i < draft.properties@.len() {
        assert(schema.properties@[i].0 == draft.properties@[i].0);
    }
}

/// A description is taken exactly where every name in it is known: of its mutation, its arguments, its
/// result, its targets and where it is available.
pub proof fn good_descriptions_are_taken(draft: DescriptorDraft)
    ensures
        descriptor_error(draft) is None <==> {
            &&& draft.mutation matches Some(name) ==> name@ == "read"@ || name@ == "write"@ || name@
                == "destructive"@
            &&& forall|i: int|
                0 <= i < draft.arguments@.len() ==> argument_error(#[trigger] draft.arguments@[i])
                    is None
            &&& draft.result_schema matches Some(schema) ==> schema_error(schema) is None
            &&& forall|i: int|
                0 <= i < draft.targets@.len() ==> resource_kind_named(
                    (#[trigger] draft.targets@[i])@,
                ) is Some
            &&& draft.target matches Some(name) ==> resource_kind_named(name@) is Some
            &&& draft.availability matches Some(a) ==> {
                &&& a.core matches Some(name) ==> availability_named(name@) is Some
                &&& a.native matches Some(name) ==> availability_named(name@) is Some
                &&& a.rmux matches Some(name) ==> availability_named(name@) is Some
                &&& a.tmux matches Some(name) ==> availability_named(name@) is Some
            }
        },
{
    all_arguments_are_good(draft.arguments@);
    all_targets_are_known(draft.targets@);
    availabilities_have_their_names("available"@);
    mutation_is_as_described(text_opt(draft.mutation));
}

}
