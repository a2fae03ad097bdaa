//! Who may do what: what the host grants to a generation of a package, and what it refuses.

use vstd::prelude::*;
use vstd::utf8::encode_utf8;
use super::command::{CommandTarget, OwnerIdentity};
use super::events::topic_text;
use super::ids::{is_metadata_namespace, is_package_id, is_storage_component};
use super::json::{natural_field, text_field, Json};
use super::runtime::ExtensionRuntime;
use super::storage::records_of;
use crate::text::{decimal, starts_with};

verus! {

/// Whether a refusal comes with a code.
pub open spec fn with_code(refusal: Option<(Seq<char>, Seq<char>)>, code: Seq<char>) -> bool {
    refusal matches Some((given, _)) && given == code
}

/// Whether a generation is the one that a package is in, and runs.
pub open spec fn is_current(host: ExtensionRuntime, id: Seq<char>, generation: u64) -> bool {
    &&& !host.shutdown
    &&& host.packages.map().contains_key(id)
    &&& host.packages.map()[id].enabled
    &&& host.packages.map()[id].generation == generation
    &&& !host.packages.map()[id].cancelled
}

/// Only the generation that a package is in may act, while the package is enabled, was not told to
/// stop, and the host runs. The host tells which of these fails, the host's end before everything
/// else, and a package that is not there before one that does not run.
pub proof fn only_the_current_generation_acts(
    host: ExtensionRuntime,
    id: Seq<char>,
    generation: u64,
)
    ensures
        host.refusal(id, generation) is None <==> is_current(host, id, generation),
        host.active(id, generation) && !host.shutdown <==> is_current(host, id, generation),
        host.shutdown ==> with_code(host.refusal(id, generation), "extension_stopped"@),
        !host.shutdown && !host.packages.map().contains_key(id) ==> with_code(
            host.refusal(id, generation),
            "unknown_extension"@,
        ),
        !host.shutdown && host.packages.map().contains_key(id) && !host.packages.map()[id].enabled
            ==> with_code(host.refusal(id, generation), "extension_disabled"@),
        !host.shutdown && host.packages.map().contains_key(id) && host.packages.map()[id].enabled
            && (host.packages.map()[id].generation != generation
            || host.packages.map()[id].cancelled) ==> with_code(
            host.refusal(id, generation),
            "stale_generation"@,
        ),
        host.binding_refusal(id, generation) is None <==> is_package_id(id) && is_current(
            host,
            id,
            generation,
        ),
        !is_package_id(id) ==> with_code(
            host.binding_refusal(id, generation),
            "invalid_extension_id"@,
        ),
{
}

/// The scope of a generation, written out.
pub open spec fn own_scope(id: Seq<char>, generation: u64) -> Seq<char> {
    "extension:"@ + id + ":"@ + decimal(generation as nat)
}

/// Whether a target is missing, or the generation itself.
pub open spec fn is_itself(id: Seq<char>, generation: u64, target: Option<CommandTarget>) -> bool {
    target matches Some(t) ==> t.kind is Extension && t.handle@ == id && t.generation == generation
}

/// A generation publishes to a topic exactly where it runs, the topic is its own, the scope and the
/// target are its own, and the payload is not too large; it follows a topic on the same terms.
pub proof fn topics_belong_to_their_generation(
    host: ExtensionRuntime,
    id: Seq<char>,
    generation: u64,
    topic: Seq<char>,
    scope: Seq<char>,
    target: Option<CommandTarget>,
    payload: Seq<char>,
)
    ensures
        ({
            let events = host.events.map();
            let own = events.contains_key(topic) && events[topic].generation.extension_id@ == id
                && events[topic].generation.generation == generation;
            &&& host.publication_refusal(id, generation, topic, scope, target, payload) is None
                <==> {
                &&& is_current(host, id, generation)
                &&& scope == own_scope(id, generation)
                &&& is_itself(id, generation, target)
                &&& own
                &&& encode_utf8(payload).len() <= host.event_byte_limit
            }
            &&& host.subscription_refusal(id, generation, topic, scope) is None <==> {
                &&& is_current(host, id, generation)
                &&& scope == own_scope(id, generation)
                &&& own
            }
            &&& is_current(host, id, generation) && scope == own_scope(id, generation)
                && !events.contains_key(topic) ==> with_code(
                host.subscription_refusal(id, generation, topic, scope),
                "unknown_event"@,
            )
            &&& is_current(host, id, generation) && scope == own_scope(id, generation)
                && events.contains_key(topic) && !own ==> with_code(
                host.subscription_refusal(id, generation, topic, scope),
                "stale_generation"@,
            )
            &&& is_current(host, id, generation) && scope != own_scope(id, generation) ==> with_code(
                host.subscription_refusal(id, generation, topic, scope),
                "invalid_binding_scope"@,
            ) && with_code(
                host.publication_refusal(id, generation, topic, scope, target, payload),
                "invalid_binding_scope"@,
            )
            &&& is_current(host, id, generation) && scope == own_scope(id, generation)
                && !is_itself(id, generation, target) ==> with_code(
                host.publication_refusal(id, generation, topic, scope, target, payload),
                "invalid_binding_target"@,
            )
        }),
{
}

/// A topic is registered exactly where nobody has it or is about to have it.
pub proof fn free_topics_are_registered(
    host: ExtensionRuntime,
    id: Seq<char>,
    generation: u64,
    topic: Seq<char>,
)
    ensures
        host.event_refusal(id, generation, topic) is None <==> is_current(host, id, generation)
            && !host.events.map().contains_key(topic)
            && !host.event_reservations.map().contains_key(topic),
        is_current(host, id, generation) && (host.events.map().contains_key(topic)
            || host.event_reservations.map().contains_key(topic)) ==> with_code(
            host.event_refusal(id, generation, topic),
            "event_collision"@,
        ),
{
}

/// The topics of a package begin with its name, however they are asked for, and asking twice makes no
/// difference.
pub proof fn topics_begin_with_their_package(id: Seq<char>, name: Seq<char>)
    ensures
        starts_with(topic_text(id, name), id + "."@),
        topic_text(id, topic_text(id, name)) == topic_text(id, name),
        topic_text(id, id + "."@ + name) == id + "."@ + name,
        !starts_with(name, id + "."@) ==> topic_text(id, name) == id + "."@ + name,
{
    let head = id + "."@;
    assert((head + name).take(head.len() as int) =~= head);
}

/// A generation starts a task where it runs, in its own scope, one at a time; and uses exactly the
/// tasks that it started for the same owner.
pub proof fn tasks_belong_to_their_generation(
    host: ExtensionRuntime,
    task: Seq<char>,
    id: Seq<char>,
    generation: u64,
    owner: OwnerIdentity,
    scope: Seq<char>,
)
    ensures
        ({
            let may = is_package_id(id) && is_current(host, id, generation);
            let known = host.tasks.map().contains_key(task);
            let resource = host.tasks.map()[task].resource;
            &&& host.task_start_refusal(id, generation, scope) is None <==> may && scope
                == own_scope(id, generation) && !host.task_reservations.map().contains_key(id)
            &&& host.task_use_refusal(task, id, generation, owner) is None <==> {
                &&& may
                &&& known
                &&& resource.generation.extension_id@ == id
                &&& resource.generation.generation == generation
                &&& resource.owner == owner
                &&& resource.scope@ == own_scope(id, generation)
            }
            &&& may && !known ==> with_code(
                host.task_use_refusal(task, id, generation, owner),
                "unknown_task"@,
            )
            &&& may && known && resource.generation.extension_id@ != id ==> with_code(
                host.task_use_refusal(task, id, generation, owner),
                "task_owner_mismatch"@,
            )
            &&& may && known && resource.generation.extension_id@ == id
                && resource.generation.generation != generation ==> with_code(
                host.task_use_refusal(task, id, generation, owner),
                "stale_generation"@,
            )
            &&& may && known && resource.generation.extension_id@ == id
                && resource.generation.generation == generation && resource.owner != owner
                ==> with_code(
                host.task_use_refusal(task, id, generation, owner),
                "task_owner_mismatch"@,
            )
        }),
{
}

/// A generation starts a process where it runs and names a program, and controls exactly the processes
/// that it started.
pub proof fn processes_belong_to_their_generation(
    host: ExtensionRuntime,
    process: Seq<char>,
    id: Seq<char>,
    generation: u64,
    executable: Seq<char>,
)
    ensures
        ({
            let known = host.processes.map().contains_key(process);
            let starter = host.processes.map()[process].generation;
            let own = known && starter.extension_id@ == id && starter.generation == generation;
            &&& host.spawn_refusal(id, generation, executable) is None <==> is_current(
                host,
                id,
                generation,
            ) && executable.len() > 0 && encode_utf8(executable).len() <= 4096
            &&& host.process_refusal(process, id, generation) is None <==> own && is_current(
                host,
                id,
                generation,
            )
            &&& !known ==> with_code(
                host.process_refusal(process, id, generation),
                "unknown_process"@,
            )
            &&& known && !own ==> with_code(
                host.process_refusal(process, id, generation),
                "stale_generation"@,
            )
        }),
{
}

/// A command is registered exactly where its name is free, and a call finds the command of that name,
/// or else the one that the name is another name of. It is refused where the command is not there, its
/// generation is over or was started anew since, or the call was cancelled.
pub proof fn commands_are_called_by_name(
    host: ExtensionRuntime,
    id: Seq<char>,
    generation: u64,
    command: Seq<char>,
    canonical: Option<Seq<char>>,
    cancelled: bool,
)
    ensures
        ({
            let commands = host.commands.map();
            let packages = host.packages.map();
            let named = if commands.contains_key(command) {
                Some(command)
            } else if canonical is Some && commands.contains_key(canonical.unwrap()) {
                canonical
            } else {
                None
            };
            let record = commands[named.unwrap()];
            let owner = record.generation.extension_id@;
            let lives = packages.contains_key(owner) && packages[owner].generation
                == record.generation.generation && packages[owner].epoch == record.epoch
                && !packages[owner].cancelled;
            &&& host.command_refusal(id, generation, command) is None <==> is_current(
                host,
                id,
                generation,
            ) && !commands.contains_key(command)
                && !host.command_reservations.map().contains_key(command)
            &&& is_current(host, id, generation) && commands.contains_key(command) ==> with_code(
                host.command_refusal(id, generation, command),
                "command_collision"@,
            )
            &&& host.command_found(command, canonical) is Some <==> named is Some
            &&& named is Some ==> host.command_found(command, canonical) == Some(record)
            &&& host.call_refusal(command, canonical, cancelled) is None <==> !host.shutdown
                && named is Some && lives && !cancelled
            &&& !host.shutdown && named is None ==> with_code(
                host.call_refusal(command, canonical, cancelled),
                "unknown_command"@,
            )
            &&& !host.shutdown && named is Some && !lives ==> with_code(
                host.call_refusal(command, canonical, cancelled),
                "stale_generation"@,
            )
            &&& !host.shutdown && named is Some && lives && cancelled ==> with_code(
                host.call_refusal(command, canonical, cancelled),
                "cancelled"@,
            )
        }),
{
}

/// A call that names the generation too is taken exactly where that generation runs and registered the
/// command in its present spell.
pub proof fn exact_calls_reach_their_generation(
    host: ExtensionRuntime,
    command: Seq<char>,
    id: Seq<char>,
    generation: u64,
    cancelled: bool,
)
    ensures
        ({
            let commands = host.commands.map();
            let own = commands.contains_key(command) && commands[command].generation.extension_id@
                == id && commands[command].generation.generation == generation;
            &&& host.exact_call_refusal(command, id, generation, cancelled) is None <==> is_current(
                host,
                id,
                generation,
            ) && own && host.packages.map()[id].epoch == commands[command].epoch && !cancelled
            &&& is_current(host, id, generation) && !own ==> with_code(
                host.exact_call_refusal(command, id, generation, cancelled),
                "stale_generation"@,
            )
        }),
{
}

/// A surface is opened where its name is a name, is not that of another generation's surface, and
/// there is room.
pub proof fn surfaces_are_opened(
    host: ExtensionRuntime,
    id: Seq<char>,
    generation: u64,
    surface: Seq<char>,
)
    ensures
        ({
            let surfaces = host.surfaces.map();
            let known = surfaces.contains_key(surface);
            let own = known && surfaces[surface].generation.extension_id@ == id
                && surfaces[surface].generation.generation == generation;
            let named = surface.len() > 0 && encode_utf8(surface).len() <= 128;
            &&& host.surface_refusal(id, generation, surface) is None <==> is_current(
                host,
                id,
                generation,
            ) && named && (own || (!known && surfaces.len() < 64))
            &&& is_current(host, id, generation) && !named ==> with_code(
                host.surface_refusal(id, generation, surface),
                "invalid_surface"@,
            )
            &&& is_current(host, id, generation) && named && known && !own ==> with_code(
                host.surface_refusal(id, generation, surface),
                "surface_collision"@,
            )
            &&& is_current(host, id, generation) && named && !known && surfaces.len() >= 64
                ==> with_code(host.surface_refusal(id, generation, surface), "surface_limit"@)
        }),
{
}

/// A generation publishes a record where it runs, in its own scope, on nothing but itself, under its
/// own name, and in a namespace of its own.
pub proof fn records_belong_to_their_generation(
    host: ExtensionRuntime,
    id: Seq<char>,
    generation: u64,
    scope: Seq<char>,
    namespace: Seq<char>,
    target: Option<CommandTarget>,
    provenance: Json,
)
    ensures
        ({
            let may = is_package_id(id) && is_current(host, id, generation);
            let placed = is_metadata_namespace(namespace) && encode_utf8(id + ":"@ + namespace).len()
                <= host.metadata_name_limit;
            let signed = (text_field(provenance, "extension_id"@) matches Some(name) ==> name == id)
                && (natural_field(provenance, "generation"@) matches Some(n) ==> n == generation);
            &&& host.place_refusal(id, generation, namespace, target) is None <==> may && is_itself(
                id,
                generation,
                target,
            ) && placed
            &&& host.publish_refusal(id, generation, scope, namespace, target, provenance) is None
                <==> may && scope == own_scope(id, generation) && is_itself(id, generation, target)
                && signed && placed
            &&& may && scope == own_scope(id, generation) && is_itself(id, generation, target)
                && !signed ==> with_code(
                host.publish_refusal(id, generation, scope, namespace, target, provenance),
                "invalid_metadata_provenance"@,
            )
        }),
{
}

/// A generation stores a value where it runs, under a plain name, as long as the value is not too large
/// and there is room: what it holds already it may always replace.
pub proof fn values_are_stored(
    host: ExtensionRuntime,
    id: Seq<char>,
    generation: u64,
    owner: OwnerIdentity,
    key: Seq<char>,
    value: Seq<char>,
)
    ensures
        ({
            let may = is_package_id(id) && is_current(host, id, generation);
            let held = host.storage.map().contains_key(
                (((id, generation), owner, own_scope(id, generation)), key),
            );
            let room = held || records_of(host.storage.entries@, id) < 256;
            let fits = encode_utf8(value).len() <= 524288;
            let namespace = host.packages.map()[id].manifest.storage_namespace;
            let placed = namespace matches Some(name) ==> is_storage_component(name@);
            &&& host.storage_refusal(id, generation, key) is None <==> may && is_storage_component(
                key,
            )
            &&& host.put_refusal(id, generation, owner, key, value) is None <==> may
                && is_storage_component(key) && fits && room && placed
            &&& may && is_storage_component(key) && !fits ==> with_code(
                host.put_refusal(id, generation, owner, key, value),
                "storage_too_large"@,
            )
            &&& may && is_storage_component(key) && fits && !room ==> with_code(
                host.put_refusal(id, generation, owner, key, value),
                "storage_limit"@,
            )
        }),
{
}

}
