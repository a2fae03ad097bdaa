//! Commands, who calls them and what they act on.

use vstd::prelude::*;
use crate::text::same_text;

verus! {

/// What a command can act on.
#[derive(Clone, Copy, Debug, PartialEq, Eq, Structural)]
pub enum ResourceKind {
    Instance,
    ApplicationWindow,
    Binding,
    Space,
    Session,
    MuxWindow,
    Pane,
    Terminal,
    Client,
    Directory,
    Worktree,
    Task,
    Subscription,
    Surface,
    Extension,
}

/// One thing that a command acts on.
#[derive(Clone, Debug, PartialEq, Eq)]
pub struct CommandTarget {
    pub kind: ResourceKind,
    pub handle: String,
    pub generation: u64,
}

/// Who calls a command.
#[derive(Clone, Copy, Debug, PartialEq, Eq, Structural)]
pub enum Caller {
    CommandPalette,
    Keybinding,
    BuiltinKeybinding,
    Cli,
    Socket,
    Luau,
    Internal,
}

/// A call of a command.
#[derive(Clone, Debug, PartialEq, Eq)]
pub struct CommandInvocation {
    pub command: String,
    pub arguments: Vec<String>,
    pub caller: Caller,
    pub target: Option<CommandTarget>,
    /// The confirmation that the caller presents, as JSON text.
    pub confirmation: Option<String>,
}

/// A process of this machine: its number, and a number that tells it from earlier ones with the same.
#[derive(Clone, Copy, Debug, PartialEq, Eq, Structural)]
pub struct OwnerIdentity {
    pub pid: u32,
    pub generation: u64,
}

/// What identifies a target.
pub type TargetId = (ResourceKind, Seq<char>, u64);

impl CommandTarget {
    pub open spec fn id(self) -> TargetId {
        (self.kind, self.handle@, self.generation)
    }

    /// A copy of this target.
    pub fn copy(&self) -> (out: Self)
        ensures
            out == *self,
    {
        CommandTarget {
            kind: self.kind,
            handle: self.handle.clone(),
            generation: self.generation,
        }
    }

    /// Whether two targets are the same.
    pub fn is(&self, other: &Self) -> (out: bool)
        ensures
            out == (self.id() == other.id()),
    {
        self.kind == other.kind && same_text(&self.handle, &other.handle) && self.generation
            == other.generation
    }
}

/// What identifies an optional target.
pub open spec fn target_id(target: Option<CommandTarget>) -> Option<TargetId> {
    match target {
        Some(t) => Some(t.id()),
        None => None,
    }
}

/// A copy of an optional target.
pub fn copy_target(target: &Option<CommandTarget>) -> (out: Option<CommandTarget>)
    ensures
        out == *target,
{
    match target {
        Some(t) => Some(t.copy()),
        None => None,
    }
}

/// Whether two optional targets are the same.
pub fn same_target(a: &Option<CommandTarget>, b: &Option<CommandTarget>) -> (out: bool)
    ensures
        out == (target_id(*a) == target_id(*b)),
{
    match (a, b) {
        (Some(x), Some(y)) => x.is(y),
        (None, None) => true,
        _ => false,
    }
}

/// The name of a caller.
pub open spec fn caller_name(caller: Caller) -> Seq<char> {
    match caller {
        Caller::CommandPalette => "command_palette"@,
        Caller::Keybinding => "keybinding"@,
        Caller::BuiltinKeybinding => "builtin_keybinding"@,
        Caller::Cli => "cli"@,
        Caller::Socket => "socket"@,
        Caller::Luau => "luau"@,
        Caller::Internal => "internal"@,
    }
}

/// The name of a caller, as scripts see it.
pub fn lua_caller_name(caller: Caller) -> (out: &'static str)
    ensures
        out@ == caller_name(caller),
{
    match caller {
        Caller::CommandPalette => "command_palette",
        Caller::Keybinding => "keybinding",
        Caller::BuiltinKeybinding => "builtin_keybinding",
        Caller::Cli => "cli",
        Caller::Socket => "socket",
        Caller::Luau => "luau",
        Caller::Internal => "internal",
    }
}

/// Scripts see who calls them by a name, and no two callers have the same.
pub proof fn callers_have_their_names(caller: Caller)
    ensures
        caller is CommandPalette <==> caller_name(caller) == "command_palette"@,
        caller is Keybinding <==> caller_name(caller) == "keybinding"@,
        caller is BuiltinKeybinding <==> caller_name(caller) == "builtin_keybinding"@,
        caller is Cli <==> caller_name(caller) == "cli"@,
        caller is Socket <==> caller_name(caller) == "socket"@,
        caller is Luau <==> caller_name(caller) == "luau"@,
        caller is Internal <==> caller_name(caller) == "internal"@,
{
    reveal_strlit("command_palette");
    reveal_strlit("keybinding");
    reveal_strlit("builtin_keybinding");
    reveal_strlit("cli");
    reveal_strlit("socket");
    reveal_strlit("luau");
    reveal_strlit("internal");
    assert("luau"@.len() == 4);
    assert("internal"@.len() == 8);
    assert("socket"@.len() == 6);
    assert("cli"@.len() == 3);
    assert("keybinding"@.len() == 10);
    assert("command_palette"@.len() == 15);
    assert("builtin_keybinding"@.len() == 18);
}

/// Two targets are the same exactly where their kind, their handle and their generation are.
pub proof fn targets_are_told_apart(a: Option<CommandTarget>, b: Option<CommandTarget>)
    ensures
        target_id(a) == target_id(b) <==> match (a, b) {
            (None, None) => true,
            (Some(x), Some(y)) => x.kind == y.kind && x.handle@ == y.handle@ && x.generation
                == y.generation,
            _ => false,
        },
{
}

}
