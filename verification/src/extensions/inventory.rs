//! What is announced of the host as a whole, and its end.

use vstd::prelude::*;
use super::ids::{extension_scope, scope_text, ExtensionGeneration};
use super::runtime::{ExtensionRuntime, LuaWorker, PackageState, ProcessRecord};
use crate::table::{Owned, Table};
use crate::text::texts;
use crate::text_set::{ascending, text_lt};

verus! {

/// A name that a generation holds.
#[derive(Debug)]
pub struct InventoryItem {
    pub name: String,
    pub generation: ExtensionGeneration,
}

/// The packages, commands and topics that are live, each by name.
#[derive(Debug)]
pub struct Inventory {
    pub modules: Vec<ExtensionGeneration>,
    pub commands: Vec<InventoryItem>,
    pub events: Vec<InventoryItem>,
}

/// The names of a list of items.
pub open spec fn item_names(items: Seq<InventoryItem>) -> Seq<Seq<char>> {
    items.map_values(|i: InventoryItem| i.name@)
}

/// The identifiers of a list of generations.
pub open spec fn module_names(modules: Seq<ExtensionGeneration>) -> Seq<Seq<char>> {
    modules.map_values(|g: ExtensionGeneration| g.extension_id@)
}

impl ExtensionRuntime {
    /// Whether a generation is that of an enabled package, and not the one that is left out.
    pub open spec fn listed_generation(
        &self,
        owner: (Seq<char>, u64),
        excluded: Option<(Seq<char>, u64)>,
    ) -> bool {
        &&& self.packages.map().contains_key(owner.0)
        &&& self.packages.map()[owner.0].enabled
        &&& self.packages.map()[owner.0].generation == owner.1
        &&& excluded != Some(owner)
    }

    fn is_listed(&self, generation: &ExtensionGeneration, excluded: Option<(&str, u64)>) -> (out:
        bool)
        requires
            self.wf(),
        ensures
            out == self.listed_generation(generation.pair(), excluded_pair(excluded)),
    {
        let left_out = match excluded {
            Some((id, number)) => generation.is(id, number),
            None => false,
        };
        let current = match self.packages.get(&generation.extension_id) {
            Some(package) => package.enabled && package.generation == generation.generation,
            None => false,
        };
        current && !left_out
    }

    /// The live packages, commands and topics, without those of one generation.
    pub fn lifecycle_snapshot(&self, excluded: Option<(&str, u64)>) -> (out: Inventory)
        requires
            self.wf(),
        ensures
            ascending(module_names(out.modules@)),
            forall|k: Seq<char>|
                module_names(out.modules@).contains(k) <==> #[trigger] self.packages.map().contains_key(
                    k,
                ) && self.listed_generation(
                    (k, self.packages.map()[k].generation),
                    excluded_pair(excluded),
                ),
            forall|i: int|
                0 <= i < out.modules@.len() ==> (#[trigger] out.modules@[i]).generation
                    == self.packages.map()[out.modules@[i].extension_id@].generation,
            ascending(item_names(out.commands@)),
            forall|k: Seq<char>|
                item_names(out.commands@).contains(k) <==> #[trigger] self.commands.map().contains_key(
                    k,
                ) && self.listed_generation(
                    self.commands.map()[k].owner(),
                    excluded_pair(excluded),
                ),
            forall|i: int|
                0 <= i < out.commands@.len() ==> (#[trigger] out.commands@[i]).generation.pair()
                    == self.commands.map()[out.commands@[i].name@].owner(),
            ascending(item_names(out.events@)),
            forall|k: Seq<char>|
                item_names(out.events@).contains(k) <==> #[trigger] self.events.map().contains_key(k)
                    && self.listed_generation(
                    self.events.map()[k].owner(),
                    excluded_pair(excluded),
                ),
            forall|i: int|
                0 <= i < out.events@.len() ==> (#[trigger] out.events@[i]).generation.pair()
                    == self.events.map()[out.events@[i].name@].owner(),
    {
        let modules = self.live_modules(excluded);
        let commands = self.live_commands(excluded);
        let events = self.live_events(excluded);
        Inventory { modules, commands, events }
    }

    fn live_modules(&self, excluded: Option<(&str, u64)>) -> (out: Vec<ExtensionGeneration>)
        requires
            self.wf(),
        ensures
            ascending(module_names(out@)),
            forall|k: Seq<char>|
                module_names(out@).contains(k) <==> #[trigger] self.packages.map().contains_key(k)
                    && self.listed_generation(
                    (k, self.packages.map()[k].generation),
                    excluded_pair(excluded),
                ),
            forall|i: int|
                0 <= i < out@.len() ==> (#[trigger] out@[i]).generation
                    == self.packages.map()[out@[i].extension_id@].generation,
    {
        let keys = self.packages.keys();
        let ghost all = texts(keys.items@);
        let ghost wanted = |k: Seq<char>|
            self.listed_generation(
                (k, self.packages.map()[k].generation),
                excluded_pair(excluded),
            );
        let mut out: Vec<ExtensionGeneration> = Vec::new();
        let mut i: usize = 0;
        proof {
            reveal(Seq::filter);
            assert(all.take(0).filter(wanted) =~= Seq::<Seq<char>>::empty());
            assert(module_names(out@) =~= Seq::<Seq<char>>::empty());
        }
        while i < keys.items.len()
            invariant
                i <= keys.items@.len(),
                self.wf(),
                keys.set() == self.packages.map().dom(),
                all == texts(keys.items@),
                wanted == (|k: Seq<char>|
                    self.listed_generation(
                        (k, self.packages.map()[k].generation),
                        excluded_pair(excluded),
                    )),
                module_names(out@) == all.take(i as int).filter(wanted),
                forall|j: int|
                    0 <= j < out@.len() ==> (#[trigger] out@[j]).generation
                        == self.packages.map()[out@[j].extension_id@].generation,
            decreases keys.items@.len() - i,
        {
            let ghost before = out@;
            proof {
                reveal(Seq::filter);
                assert(all[i as int] == keys.items@[i as int]@);
                assert(keys.set().contains(all[i as int]));
                assert(all.take(i + 1).drop_last() =~= all.take(i as int));
                assert(all.take(i + 1).last() == all[i as int]);
            }
            let number = match self.packages.get(&keys.items[i]) {
                Some(package) => package.generation,
                None => 0,
            };
            let generation = ExtensionGeneration::of(&keys.items[i], number);
            if self.is_listed(&generation, excluded) {
                out.push(generation);
                assert(module_names(out@) =~= module_names(before).push(all[i as int]));
            }
            i = i + 1;
        }
        proof {
            assert(all.take(i as int) =~= all);
            filter_ascending(all, wanted);
            assert forall|k: Seq<char>|
                module_names(out@).contains(k) <==> #[trigger] self.packages.map().contains_key(k)
                    && self.listed_generation(
                    (k, self.packages.map()[k].generation),
                    excluded_pair(excluded),
                ) by {
                filter_holds(all, wanted, k);
                assert(keys.set().contains(k) <==> all.contains(k));
            }
        }
        out
    }

    fn live_commands(&self, excluded: Option<(&str, u64)>) -> (out: Vec<InventoryItem>)
        requires
            self.wf(),
        ensures
            ascending(item_names(out@)),
            forall|k: Seq<char>|
                item_names(out@).contains(k) <==> #[trigger] self.commands.map().contains_key(k)
                    && self.listed_generation(
                    self.commands.map()[k].owner(),
                    excluded_pair(excluded),
                ),
            forall|i: int|
                0 <= i < out@.len() ==> (#[trigger] out@[i]).generation.pair()
                    == self.commands.map()[out@[i].name@].owner(),
    {
        let keys = self.commands.keys();
        let ghost all = texts(keys.items@);
        let ghost wanted = |k: Seq<char>|
            self.listed_generation(self.commands.map()[k].owner(), excluded_pair(excluded));
        let mut out: Vec<InventoryItem> = Vec::new();
        let mut i: usize = 0;
        proof {
            reveal(Seq::filter);
            assert(all.take(0).filter(wanted) =~= Seq::<Seq<char>>::empty());
            assert(item_names(out@) =~= Seq::<Seq<char>>::empty());
        }
        while i < keys.items.len()
            invariant
                i <= keys.items@.len(),
                self.wf(),
                keys.set() == self.commands.map().dom(),
                all == texts(keys.items@),
                wanted == (|k: Seq<char>|
                    self.listed_generation(
                        self.commands.map()[k].owner(),
                        excluded_pair(excluded),
                    )),
                item_names(out@) == all.take(i as int).filter(wanted),
                forall|j: int|
                    0 <= j < out@.len() ==> (#[trigger] out@[j]).generation.pair()
                        == self.commands.map()[out@[j].name@].owner(),
            decreases keys.items@.len() - i,
        {
            let ghost before = out@;
            proof {
                reveal(Seq::filter);
                assert(all[i as int] == keys.items@[i as int]@);
                assert(keys.set().contains(all[i as int]));
                assert(all.take(i + 1).drop_last() =~= all.take(i as int));
                assert(all.take(i + 1).last() == all[i as int]);
            }
            match self.commands.get(&keys.items[i]) {
                None => {},
                Some(record) => {
                    if self.is_listed(&record.generation, excluded) {
                        out.push(
                            InventoryItem {
                                name: keys.items[i].clone(),
                                generation: record.generation.copy(),
                            },
                        );
                        assert(item_names(out@) =~= item_names(before).push(all[i as int]));
                    }
                },
            }
            i = i + 1;
        }
        proof {
            assert(all.take(i as int) =~= all);
            filter_ascending(all, wanted);
            assert forall|k: Seq<char>|
                item_names(out@).contains(k) <==> #[trigger] self.commands.map().contains_key(k)
                    && self.listed_generation(
                    self.commands.map()[k].owner(),
                    excluded_pair(excluded),
                ) by {
                filter_holds(all, wanted, k);
                assert(keys.set().contains(k) <==> all.contains(k));
            }
        }
        out
    }

    fn live_events(&self, excluded: Option<(&str, u64)>) -> (out: Vec<InventoryItem>)
        requires
            self.wf(),
        ensures
            ascending(item_names(out@)),
            forall|k: Seq<char>|
                item_names(out@).contains(k) <==> #[trigger] self.events.map().contains_key(k)
                    && self.listed_generation(
                    self.events.map()[k].owner(),
                    excluded_pair(excluded),
                ),
            forall|i: int|
                0 <= i < out@.len() ==> (#[trigger] out@[i]).generation.pair()
                    == self.events.map()[out@[i].name@].owner(),
    {
        let keys = self.events.keys();
        let ghost all = texts(keys.items@);
        let ghost wanted = |k: Seq<char>|
            self.listed_generation(self.events.map()[k].owner(), excluded_pair(excluded));
        let mut out: Vec<InventoryItem> = Vec::new();
        let mut i: usize = 0;
        proof {
            reveal(Seq::filter);
            assert(all.take(0).filter(wanted) =~= Seq::<Seq<char>>::empty());
            assert(item_names(out@) =~= Seq::<Seq<char>>::empty());
        }
        while i < keys.items.len()
            invariant
                i <= keys.items@.len(),
                self.wf(),
                keys.set() == self.events.map().dom(),
                all == texts(keys.items@),
                wanted == (|k: Seq<char>|
                    self.listed_generation(
                        self.events.map()[k].owner(),
                        excluded_pair(excluded),
                    )),
                item_names(out@) == all.take(i as int).filter(wanted),
                forall|j: int|
                    0 <= j < out@.len() ==> (#[trigger] out@[j]).generation.pair()
                        == self.events.map()[out@[j].name@].owner(),
            decreases keys.items@.len() - i,
        {
            let ghost before = out@;
            proof {
                reveal(Seq::filter);
                assert(all[i as int] == keys.items@[i as int]@);
                assert(keys.set().contains(all[i as int]));
                assert(all.take(i + 1).drop_last() =~= all.take(i as int));
                assert(all.take(i + 1).last() == all[i as int]);
            }
            match self.events.get(&keys.items[i]) {
                None => {},
                Some(record) => {
                    if self.is_listed(&record.generation, excluded) {
                        out.push(
                            InventoryItem {
                                name: keys.items[i].clone(),
                                generation: record.generation.copy(),
                            },
                        );
                        assert(item_names(out@) =~= item_names(before).push(all[i as int]));
                    }
                },
            }
            i = i + 1;
        }
        proof {
            assert(all.take(i as int) =~= all);
            filter_ascending(all, wanted);
            assert forall|k: Seq<char>|
                item_names(out@).contains(k) <==> #[trigger] self.events.map().contains_key(k)
                    && self.listed_generation(
                    self.events.map()[k].owner(),
                    excluded_pair(excluded),
                ) by {
                filter_holds(all, wanted, k);
                assert(keys.set().contains(k) <==> all.contains(k));
            }
        }
        out
    }

    /// The scopes of the enabled packages' generations, in the order of the packages.
    pub fn refresh_extension_scopes(&self) -> (out: Vec<String>)
        requires
            self.wf(),
        ensures
            exists|names: Seq<Seq<char>>| #[trigger]
                ascending(names) && (forall|k: Seq<char>|
                    names.contains(k) <==> #[trigger] self.packages.map().contains_key(k)
                        && self.packages.map()[k].enabled) && texts(out@) == names.map_values(
                    |k: Seq<char>| scope_text(k, self.packages.map()[k].generation),
                ),
    {
        let nothing: Option<(&str, u64)> = None;
        let modules = self.live_modules(nothing);
        let ghost names = module_names(modules@);
        let ghost scope = |k: Seq<char>| scope_text(k, self.packages.map()[k].generation);
        let mut out: Vec<String> = Vec::new();
        let mut i: usize = 0;
        while i < modules.len()
            invariant
                i <= modules@.len(),
                names == module_names(modules@),
                scope == (|k: Seq<char>| scope_text(k, self.packages.map()[k].generation)),
                forall|j: int|
                    0 <= j < modules@.len() ==> (#[trigger] modules@[j]).generation
                        == self.packages.map()[modules@[j].extension_id@].generation,
                texts(out@) == names.take(i as int).map_values(scope),
            decreases modules@.len() - i,
        {
            let ghost before = out@;
            let text = extension_scope(&modules[i].extension_id, modules[i].generation);
            out.push(text);
            proof {
                assert(names[i as int] == modules@[i as int].extension_id@);
                assert(texts(out@) =~= texts(before).push(text@));
                assert(names.take(i + 1) =~= names.take(i as int).push(names[i as int]));
                assert(names.take(i + 1).map_values(scope) =~= names.take(i as int).map_values(
                    scope,
                ).push(scope(names[i as int])));
            }
            i = i + 1;
        }
        proof {
            assert(names.take(i as int) =~= names);
            assert(ascending(names));
            assert forall|k: Seq<char>|
                names.contains(k) <==> #[trigger] self.packages.map().contains_key(k)
                    && self.packages.map()[k].enabled by {
                let owner = (k, self.packages.map()[k].generation);
                assert(excluded_pair(nothing) is None);
                assert(self.packages.map().contains_key(k) ==> (names.contains(k)
                    <==> self.listed_generation(owner, excluded_pair(nothing))));
                if names.contains(k) {
                    assert(self.packages.map().contains_key(k));
                }
            }
        }
        out
    }

    /// Every package, told to stop.
    pub open spec fn all_stopped(packages: Map<Seq<char>, PackageState>) -> Map<
        Seq<char>,
        PackageState,
    > {
        packages.map_values(|p: PackageState| PackageState { cancelled: true, ..p })
    }

    /// Shuts the host down: every package is told to stop, and the generations to clean up are given,
    /// in the order of the packages. A host that was shut down before gives none.
    pub fn shutdown_and_cleanup(&mut self) -> (out: Vec<ExtensionGeneration>)
        requires
            old(self).wf(),
        ensures
            final(self).wf(),
            old(self).shutdown ==> *final(self) == *old(self) && out@.len() == 0,
            !old(self).shutdown ==> {
                &&& *final(self) == (ExtensionRuntime {
                    shutdown: true,
                    packages: final(self).packages,
                    ..*old(self)
                })
                &&& final(self).packages.map() == Self::all_stopped(old(self).packages.map())
                &&& ascending(module_names(out@))
                &&& module_names(out@).to_set() == old(self).packages.map().dom()
                &&& forall|i: int|
                    0 <= i < out@.len() ==> (#[trigger] out@[i]).generation == old(
                        self,
                    ).packages.map()[out@[i].extension_id@].generation
            },
    {
        let mut out: Vec<ExtensionGeneration> = Vec::new();
        if self.shutdown {
            return out;
        }
        self.shutdown = true;
        let keys = self.packages.keys();
        let ghost all = texts(keys.items@);
        let ghost before = self.packages.map();
        let mut i: usize = 0;
        while i < keys.items.len()
            invariant
                i <= keys.items@.len(),
                self.wf(),
                keys.wf(),
                all == texts(keys.items@),
                keys.set() == before.dom(),
                before == old(self).packages.map(),
                *self == (ExtensionRuntime {
                    shutdown: true,
                    packages: self.packages,
                    ..*old(self)
                }),
                self.packages.map().dom() == before.dom(),
                forall|j: int|
                    0 <= j < i ==> self.packages.map()[#[trigger] all[j]] == (PackageState {
                        cancelled: true,
                        ..before[all[j]]
                    }),
                forall|j: int|
                    i <= j < all.len() ==> self.packages.map()[#[trigger] all[j]] == before[all[j]],
                out@.len() == i,
                forall|j: int| 0 <= j < i ==> (#[trigger] out@[j]).extension_id@ == all[j],
                forall|j: int|
                    0 <= j < i ==> (#[trigger] out@[j]).generation
                        == before[out@[j].extension_id@].generation,
            decreases keys.items@.len() - i,
        {
            let ghost current = self.packages.map();
            proof {
                assert(all[i as int] == keys.items@[i as int]@);
                assert(keys.set().contains(all[i as int]));
                assert(current.contains_key(all[i as int]));
                assert forall|j: int| 0 <= j < all.len() && j != i implies #[trigger] all[j]
                    != all[i as int] by {
                    crate::text_set::text_lt_irreflexive(all[i as int]);
                    if j < i {
                        assert(text_lt(all[j], all[i as int]));
                    } else {
                        assert(text_lt(all[i as int], all[j]));
                    }
                }
            }
            match self.packages.remove(&keys.items[i]) {
                None => {},
                Some(package) => {
                    out.push(ExtensionGeneration::of(&keys.items[i], package.generation));
                    let mut package = package;
                    package.cancelled = true;
                    self.packages.insert(keys.items[i].clone(), package);
                    proof {
                        assert(self.packages.map() =~= current.insert(all[i as int], package));
                        assert(self.packages.map().dom() =~= before.dom());
                    }
                },
            }
            i = i + 1;
        }
        proof {
            assert(module_names(out@) =~= all);
            assert forall|k: Seq<char>| before.contains_key(k) implies self.packages.map()[k] == (
            PackageState { cancelled: true, ..before[k] }) by {
                assert(keys.set().contains(k));
                let j = choose|j: int| 0 <= j < all.len() && all[j] == k;
                assert(self.packages.map()[all[j]] == (PackageState {
                    cancelled: true,
                    ..before[all[j]]
                }));
            }
            assert(self.packages.map() =~= Self::all_stopped(before));
        }
        out
    }

    /// Ends a shutdown: the threads and processes that are left are given up to be stopped.
    pub fn finish_shutdown(&mut self) -> (out: (Table<String, LuaWorker>, Table<String, ProcessRecord>))
        requires
            old(self).wf(),
        ensures
            final(self).wf(),
            *final(self) == (ExtensionRuntime {
                lua_workers: final(self).lua_workers,
                processes: final(self).processes,
                process_reservations: final(self).process_reservations,
                ..*old(self)
            }),
            final(self).lua_workers.map() == Map::<Seq<char>, LuaWorker>::empty(),
            final(self).processes.map() == Map::<Seq<char>, ProcessRecord>::empty(),
            final(self).process_reservations.map() == Map::<(Seq<char>, u64), usize>::empty(),
            out.0 == old(self).lua_workers,
            out.1 == old(self).processes,
    {
        let mut workers: Table<String, LuaWorker> = Table::new();
        let mut processes: Table<String, ProcessRecord> = Table::new();
        std::mem::swap(&mut workers, &mut self.lua_workers);
        std::mem::swap(&mut processes, &mut self.processes);
        self.process_reservations = Table::new();
        (workers, processes)
    }
}

/// The generation that is left out.
pub open spec fn excluded_pair(excluded: Option<(&str, u64)>) -> Option<(Seq<char>, u64)> {
    match excluded {
        Some((id, generation)) => Some((id@, generation)),
        None => None,
    }
}

/// What passes a filter of an ascending list is ascending.
proof fn filter_ascending(list: Seq<Seq<char>>, keep: spec_fn(Seq<char>) -> bool)
    requires
        ascending(list),
    ensures
        ascending(list.filter(keep)),
    decreases list.len(),
{
    reveal(Seq::filter);
    if list.len() > 0 {
        let before = list.drop_last();
        assert(ascending(before)) by {
            assert forall|i: int, j: int| 0 <= i < j < before.len() implies text_lt(
                #[trigger] before[i],
                #[trigger] before[j],
            ) by {
                assert(text_lt(list[i], list[j]));
            }
        }
        filter_ascending(before, keep);
        if keep(list.last()) {
            let out = list.filter(keep);
            assert(out =~= before.filter(keep).push(list.last()));
            assert forall|i: int, j: int| 0 <= i < j < out.len() implies text_lt(
                #[trigger] out[i],
                #[trigger] out[j],
            ) by {
                if j == out.len() - 1 {
                    filter_holds(before, keep, out[i]);
                    assert(before.filter(keep)[i] == out[i]);
                    assert(before.contains(out[i]));
                    let k = choose|k: int| 0 <= k < before.len() && before[k] == out[i];
                    assert(text_lt(list[k], list[list.len() - 1]));
                } else {
                    assert(text_lt(before.filter(keep)[i], before.filter(keep)[j]));
                }
            }
        }
    }
}

/// A filter keeps exactly the members that pass it.
proof fn filter_holds(list: Seq<Seq<char>>, keep: spec_fn(Seq<char>) -> bool, k: Seq<char>)
    ensures
        list.filter(keep).contains(k) <==> list.contains(k) && keep(k),
    decreases list.len(),
{
    reveal(Seq::filter);
    if list.len() > 0 {
        let before = list.drop_last();
        let last = list.last();
        filter_holds(before, keep, k);
        let inner = before.filter(keep);
        let out = list.filter(keep);
        if out.contains(k) {
            let i = choose|i: int| 0 <= i < out.len() && out[i] == k;
            if i < inner.len() {
                assert(inner[i] == k);
                let j = choose|j: int| 0 <= j < before.len() && before[j] == k;
                assert(list[j] == k);
            } else {
                assert(list[list.len() - 1] == k);
            }
        }
        if list.contains(k) && keep(k) {
            let j = choose|j: int| 0 <= j < list.len() && list[j] == k;
            if j < before.len() {
                assert(before[j] == k);
                let i = choose|i: int| 0 <= i < inner.len() && inner[i] == k;
                assert(out[i] == k);
            } else {
                assert(out[out.len() - 1] == k);
            }
        }
    }
}

/// What is listed belongs to the generation of its package that is current and enabled, and is not left
/// out by the one who asks; all such is.
pub proof fn listed_are_current(
    host: ExtensionRuntime,
    id: Seq<char>,
    generation: u64,
    excluded: Option<(Seq<char>, u64)>,
)
    ensures
        host.listed_generation((id, generation), excluded) <==> {
            &&& host.packages.map().contains_key(id)
            &&& host.packages.map()[id].enabled
            &&& host.packages.map()[id].generation == generation
            &&& !(excluded matches Some((a, b)) && a == id && b == generation)
        },
{
}

/// Stopping the host cancels every package and changes nothing else of it.
pub proof fn stopping_cancels_all(packages: Map<Seq<char>, PackageState>, id: Seq<char>)
    requires
        packages.contains_key(id),
    ensures
        ({
            let after = ExtensionRuntime::all_stopped(packages);
            &&& after.contains_key(id)
            &&& after[id].cancelled
            &&& after[id] == (PackageState { cancelled: true, ..packages[id] })
        }),
{
}

}
