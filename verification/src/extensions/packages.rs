//! Packages: installing, linking, listing and finding them on disk.

use vstd::prelude::*;
use super::error::ExtensionError;
use super::ids::{is_package_id, ExtensionPackageId};
use super::runtime::{copy_text, key_of, ExtensionPackageManifest, ExtensionRuntime, PackageState};
use crate::table::{entry_in_map, key_has_entry};
use crate::text::{join, same_text, text_opt, texts};
use crate::text_set::{ascending, comes_before, text_lt, text_lt_irreflexive, text_lt_total, text_lt_transitive, TextSet};

verus! {

/// A package as the outside sees it.
#[derive(Clone, Debug, PartialEq, Eq)]
pub struct ExtensionPackageInfo {
    pub id: String,
    pub name: String,
    pub version: String,
    pub generation: u64,
    pub enabled: bool,
    pub linked: bool,
    pub source: Option<String>,
    pub commands: Vec<String>,
    pub events: Vec<String>,
}

/// Whether a package is enabled, as it is saved.
#[derive(Clone, Debug)]
pub struct PersistedPackageState {
    pub id: String,
    pub enabled: bool,
}

/// A package that was found on disk, and whether its scripts have to be loaded.
#[derive(Debug)]
pub struct DiscoveredPackage {
    pub info: ExtensionPackageInfo,
    pub should_load: bool,
}

/// What a search for packages found, by identifier, and the first thing that went wrong.
#[derive(Debug)]
pub struct DiscoveryOutcome {
    pub packages: Vec<DiscoveredPackage>,
    pub diagnostic: Option<ExtensionError>,
}

/// One entry of a directory that is searched for packages.
#[derive(Debug)]
pub enum DiscoveryEntry {
    /// The entry could not be read; the text is that of the error.
    Unreadable(String),
    /// No package: not a directory, or without a readable manifest.
    Other,
    /// A package directory: its manifest, its path, that path resolved, and the resolved source of
    /// the installed package with the same identifier, where it has a source.
    Package {
        manifest: ExtensionPackageManifest,
        path: String,
        resolved: String,
        installed_source: Option<String>,
    },
}

/// Whether `info` shows a package.
pub open spec fn info_shows(info: ExtensionPackageInfo, package: PackageState) -> bool {
    &&& info.id@ == package.manifest.id@
    &&& info.name@ == package.manifest.name@
    &&& info.version@ == package.manifest.version@
    &&& info.generation == package.generation
    &&& info.enabled == package.enabled
    &&& info.linked == package.linked
    &&& text_opt(info.source) == text_opt(package.source)
    &&& texts(info.commands@) == texts(package.commands.items@)
    &&& texts(info.events@) == texts(package.events.items@)
}

/// A package as the outside sees it.
pub fn package_info(package: &PackageState) -> (out: ExtensionPackageInfo)
    ensures
        info_shows(out, *package),
{
    ExtensionPackageInfo {
        id: package.manifest.id.clone(),
        name: package.manifest.name.clone(),
        version: package.manifest.version.clone(),
        generation: package.generation,
        enabled: package.enabled,
        linked: package.linked,
        source: copy_text(&package.source),
        commands: package.commands.to_vec(),
        events: package.events.to_vec(),
    }
}

/// What was saved of a package: the first entry with its identifier counts.
pub open spec fn saved_state(saved: Seq<PersistedPackageState>, id: Seq<char>) -> Option<bool>
    decreases saved.len(),
{
    if saved.len() == 0 {
        None
    } else if saved[0].id@ == id {
        Some(saved[0].enabled)
    } else {
        saved_state(saved.drop_first(), id)
    }
}

/// Whether a package was saved as enabled.
pub fn persisted_enabled(saved: &[PersistedPackageState], id: &str) -> (out: Option<bool>)
    ensures
        out == saved_state(saved@, id@),
{
    let mut i: usize = 0;
    assert(saved@.skip(0) =~= saved@);
    while i < saved.len()
        invariant
            i <= saved@.len(),
            saved_state(saved@.skip(i as int), id@) == saved_state(saved@, id@),
        decreases saved@.len() - i,
    {
        if same_text(&saved[i].id, id) {
            return Some(saved[i].enabled);
        }
        assert(saved@.skip(i as int).drop_first() =~= saved@.skip(i + 1));
        i = i + 1;
    }
    None
}

/// Whether a package is enabled when it is installed: as it was saved, else as its manifest says.
pub open spec fn first_enabled(
    saved: Seq<PersistedPackageState>,
    manifest: ExtensionPackageManifest,
) -> bool {
    match saved_state(saved, manifest.id@) {
        Some(enabled) => enabled,
        None => manifest.default_enabled,
    }
}

/// A package that was just installed.
pub open spec fn fresh_package(
    package: PackageState,
    manifest: ExtensionPackageManifest,
    enabled: bool,
) -> bool {
    &&& package.manifest == manifest
    &&& package.generation == 1
    &&& package.enabled == enabled
    &&& !package.linked
    &&& package.source is None
    &&& !package.cancelled
    &&& package.epoch == 0
    &&& package.commands.wf() && package.commands.set() == Set::<Seq<char>>::empty()
    &&& package.events.wf() && package.events.set() == Set::<Seq<char>>::empty()
}

/// A package with another source.
pub open spec fn linked_package(before: PackageState, after: PackageState, source: Seq<char>) -> bool {
    &&& after == (PackageState { linked: true, source: after.source, ..before })
    &&& text_opt(after.source) == Some(source)
}

/// `map` with another value under one key.
pub open spec fn changed_at<V>(before: Map<Seq<char>, V>, after: Map<Seq<char>, V>, id: Seq<char>) -> bool {
    after.contains_key(id) && after == before.insert(id, after[id])
}

impl ExtensionRuntime {
    /// Installs a package. What was saved of it decides whether it is enabled; else its manifest does.
    pub fn install(&mut self, manifest: ExtensionPackageManifest, saved: &[PersistedPackageState]) -> (out:
        Result<ExtensionPackageInfo, ExtensionError>)
        requires
            old(self).wf(),
        ensures
            final(self).wf(),
            *final(self) == (ExtensionRuntime { packages: final(self).packages, ..*old(self) }),
            !is_package_id(manifest.id@) ==> (out matches Err(e) && e.is(
                "invalid_extension_id"@,
                "invalid extension package id"@,
            )),
            is_package_id(manifest.id@) && old(self).packages.map().contains_key(manifest.id@) ==> (
            out matches Err(e) && e.is("extension_exists"@, "extension is already installed"@)),
            out is Err ==> *final(self) == *old(self),
            out is Ok <==> is_package_id(manifest.id@) && !old(self).packages.map().contains_key(
                manifest.id@,
            ),
            out matches Ok(info) ==> {
                let after = final(self).packages.map();
                &&& changed_at(old(self).packages.map(), after, manifest.id@)
                &&& fresh_package(
                    after[manifest.id@],
                    manifest,
                    first_enabled(saved@, manifest),
                )
                &&& info_shows(info, after[manifest.id@])
            },
    {
        match ExtensionPackageId::new(&manifest.id) {
            Err(error) => {
                return Err(error);
            },
            Ok(_) => {},
        }
        let restored = persisted_enabled(saved, &manifest.id);
        if self.packages.contains(&manifest.id) {
            return Err(ExtensionError::new("extension_exists", "extension is already installed"));
        }
        let enabled = match restored {
            Some(enabled) => enabled,
            None => manifest.default_enabled,
        };
        let key = manifest.id.clone();
        let package = PackageState {
            manifest,
            generation: 1,
            enabled,
            linked: false,
            source: None,
            cancelled: false,
            epoch: 0,
            commands: TextSet::new(),
            events: TextSet::new(),
        };
        let info = package_info(&package);
        self.packages.insert(key, package);
        Ok(info)
    }

    /// Whether a package is installed.
    pub fn has_package(&self, id: &str) -> (out: bool)
        requires
            self.wf(),
        ensures
            out == self.packages.map().contains_key(id@),
    {
        let key = key_of(id);
        self.packages.contains(&key)
    }

    /// Where a package is linked from.
    pub fn package_source_root(&self, id: &str) -> (out: Result<String, ExtensionError>)
        requires
            self.wf(),
        ensures
            match out {
                Ok(source) => self.packages.map().contains_key(id@) && text_opt(
                    self.packages.map()[id@].source,
                ) == Some(source@),
                Err(e) => (!self.packages.map().contains_key(id@) || self.packages.map()[id@].source
                    is None) && e.is(
                    "extension_source_missing"@,
                    "extension source is not linked"@,
                ),
            },
    {
        let key = key_of(id);
        match self.packages.get(&key) {
            Some(package) => match &package.source {
                Some(source) => Ok(source.clone()),
                None => Err(
                    ExtensionError::new("extension_source_missing", "extension source is not linked"),
                ),
            },
            None => Err(
                ExtensionError::new("extension_source_missing", "extension source is not linked"),
            ),
        }
    }

    /// A package.
    pub fn package(&self, id: &str) -> (out: Result<ExtensionPackageInfo, ExtensionError>)
        requires
            self.wf(),
        ensures
            match out {
                Ok(info) => self.packages.map().contains_key(id@) && info_shows(
                    info,
                    self.packages.map()[id@],
                ),
                Err(e) => !self.packages.map().contains_key(id@) && e.is(
                    "unknown_extension"@,
                    "extension is not installed"@,
                ),
            },
    {
        let key = key_of(id);
        match self.packages.get(&key) {
            Some(package) => Ok(package_info(package)),
            None => Err(ExtensionError::new("unknown_extension", "extension is not installed")),
        }
    }

    /// All packages, by identifier.
    pub fn list(&self) -> (out: Vec<ExtensionPackageInfo>)
        requires
            self.wf(),
        ensures
            ascending(info_ids(out@)),
            info_ids(out@).to_set() == self.packages.map().dom(),
            forall|i: int|
                0 <= i < out@.len() ==> info_shows(
                    #[trigger] out@[i],
                    self.packages.map()[out@[i].id@],
                ),
    {
        let keys = self.packages.keys();
        let mut out: Vec<ExtensionPackageInfo> = Vec::new();
        let mut i: usize = 0;
        while i < keys.items.len()
            invariant
                i <= keys.items@.len(),
                self.wf(),
                keys.wf(),
                keys.set() == self.packages.map().dom(),
                out@.len() == i,
                forall|j: int| 0 <= j < i ==> (#[trigger] out@[j]).id@ == keys.items@[j]@,
                forall|j: int|
                    0 <= j < i ==> info_shows(
                        #[trigger] out@[j],
                        self.packages.map()[out@[j].id@],
                    ),
            decreases keys.items@.len() - i,
        {
            assert(texts(keys.items@)[i as int] == keys.items@[i as int]@);
            assert(keys.set().contains(keys.items@[i as int]@));
            match self.packages.get(&keys.items[i]) {
                Some(package) => {
                    let info = package_info(package);
                    out.push(info);
                },
                None => {},
            }
            i = i + 1;
        }
        assert(info_ids(out@) =~= texts(keys.items@));
        out
    }

    /// What is saved of every package, by identifier. `changed` names a package whose new state is
    /// saved before it takes effect.
    pub fn package_states_with_override(&self, changed: Option<(&str, bool)>) -> (out: Vec<
        PersistedPackageState,
    >)
        requires
            self.wf(),
        ensures
            ascending(saved_ids(out@)),
            saved_ids(out@).to_set() == self.packages.map().dom(),
            forall|i: int|
                0 <= i < out@.len() ==> (#[trigger] out@[i]).enabled == (match changed {
                    Some((id, enabled)) => if id@ == out@[i].id@ {
                        enabled
                    } else {
                        self.packages.map()[out@[i].id@].enabled
                    },
                    None => self.packages.map()[out@[i].id@].enabled,
                }),
    {
        let keys = self.packages.keys();
        let mut out: Vec<PersistedPackageState> = Vec::new();
        let mut i: usize = 0;
        while i < keys.items.len()
            invariant
                i <= keys.items@.len(),
                self.wf(),
                keys.wf(),
                keys.set() == self.packages.map().dom(),
                out@.len() == i,
                forall|j: int| 0 <= j < i ==> (#[trigger] out@[j]).id@ == keys.items@[j]@,
                forall|j: int|
                    0 <= j < i ==> (#[trigger] out@[j]).enabled == (match changed {
                        Some((id, enabled)) => if id@ == out@[j].id@ {
                            enabled
                        } else {
                            self.packages.map()[out@[j].id@].enabled
                        },
                        None => self.packages.map()[out@[j].id@].enabled,
                    }),
            decreases keys.items@.len() - i,
        {
            assert(texts(keys.items@)[i as int] == keys.items@[i as int]@);
            assert(keys.set().contains(keys.items@[i as int]@));
            match self.packages.get(&keys.items[i]) {
                Some(package) => {
                    let enabled = match changed {
                        Some((id, enabled)) => if same_text(id, &keys.items[i]) {
                            enabled
                        } else {
                            package.enabled
                        },
                        None => package.enabled,
                    };
                    out.push(PersistedPackageState { id: keys.items[i].clone(), enabled });
                },
                None => {},
            }
            i = i + 1;
        }
        assert(saved_ids(out@) =~= texts(keys.items@));
        out
    }

    /// Links a package to the directory that its scripts come from.
    pub fn link(&mut self, id: &str, source: &str) -> (out: Result<
        ExtensionPackageInfo,
        ExtensionError,
    >)
        requires
            old(self).wf(),
        ensures
            final(self).wf(),
            *final(self) == (ExtensionRuntime { packages: final(self).packages, ..*old(self) }),
            out is Ok <==> old(self).packages.map().contains_key(id@),
            out matches Err(e) ==> *final(self) == *old(self) && e.is(
                "unknown_extension"@,
                "extension is not installed"@,
            ),
            out matches Ok(info) ==> {
                let after = final(self).packages.map();
                &&& changed_at(old(self).packages.map(), after, id@)
                &&& linked_package(old(self).packages.map()[id@], after[id@], source@)
                &&& info_shows(info, after[id@])
            },
    {
        let key = key_of(id);
        match self.packages.remove(&key) {
            None => Err(ExtensionError::new("unknown_extension", "extension is not installed")),
            Some(package) => {
                let linked = PackageState {
                    linked: true,
                    source: Some(source.to_owned()),
                    ..package
                };
                let info = package_info(&linked);
                self.packages.insert(key, linked);
                proof {
                    let before = old(self).packages.map();
                    assert(before.remove(id@).insert(id@, linked) =~= before.insert(id@, linked));
                }
                Ok(info)
            },
        }
    }

    /// Takes over what was saved of the installed packages; a later entry overrides an earlier one.
    pub fn restore_package_states(&mut self, saved: &[PersistedPackageState])
        requires
            old(self).wf(),
        ensures
            final(self).wf(),
            *final(self) == (ExtensionRuntime { packages: final(self).packages, ..*old(self) }),
            final(self).packages.map() == restored(old(self).packages.map(), saved@),
    {
        let mut i: usize = 0;
        assert(saved@.take(0) =~= Seq::<PersistedPackageState>::empty());
        while i < saved.len()
            invariant
                i <= saved@.len(),
                self.wf(),
                *self == (ExtensionRuntime { packages: self.packages, ..*old(self) }),
                self.packages.map() == restored(old(self).packages.map(), saved@.take(i as int)),
            decreases saved@.len() - i,
        {
            let ghost before = self.packages.map();
            match self.packages.remove(&saved[i].id) {
                None => {},
                Some(package) => {
                    let changed = PackageState { enabled: saved[i].enabled, ..package };
                    let key = saved[i].id.clone();
                    self.packages.insert(key, changed);
                    assert(before.remove(saved@[i as int].id@).insert(
                        saved@[i as int].id@,
                        changed,
                    ) =~= before.insert(saved@[i as int].id@, changed));
                },
            }
            assert(saved@.take(i + 1).drop_last() =~= saved@.take(i as int));
            i = i + 1;
        }
        assert(saved@.take(i as int) =~= saved@);
    }

    /// Sets the directory that the host stores in, and takes over what was saved there.
    pub fn set_storage_root(&mut self, root: &str, saved: &[PersistedPackageState])
        requires
            old(self).wf(),
        ensures
            final(self).wf(),
            *final(self) == (ExtensionRuntime {
                packages: final(self).packages,
                storage_root: final(self).storage_root,
                ..*old(self)
            }),
            text_opt(final(self).storage_root) == Some(root@),
            final(self).packages.map() == restored(old(self).packages.map(), saved@),
    {
        self.storage_root = Some(root.to_owned());
        self.restore_package_states(saved);
    }

    /// Sets the directories beneath which extensions may use files.
    pub fn set_file_roots(&mut self, roots: Vec<String>)
        ensures
            *final(self) == (ExtensionRuntime { file_roots: roots, ..*old(self) }),
    {
        self.file_roots = roots;
    }

    /// Whether a thread runs the scripts of a generation.
    pub open spec fn has_worker(&self, id: Seq<char>, generation: u64) -> bool {
        exists|k: Seq<char>| #[trigger]
            self.lua_workers.map().contains_key(k) && self.lua_workers.map()[k].generation.pair()
                == (id, generation)
    }

    /// Whether a thread runs the scripts of a generation.
    pub fn generation_has_worker(&self, id: &str, generation: u64) -> (out: bool)
        requires
            self.wf(),
        ensures
            out == self.has_worker(id@, generation),
    {
        let mut i: usize = 0;
        while i < self.lua_workers.entries.len()
            invariant
                i <= self.lua_workers.entries@.len(),
                self.lua_workers.wf(),
                forall|j: int|
                    0 <= j < i ==> (#[trigger] self.lua_workers.entries@[j]).1.generation.pair()
                        != (id@, generation),
            decreases self.lua_workers.entries@.len() - i,
        {
            if self.lua_workers.entries[i].1.generation.is(id, generation) {
                proof {
                    entry_in_map(self.lua_workers.entries@, i as int);
                    let k = self.lua_workers.entries@[i as int].0@;
                    assert(self.lua_workers.map().contains_key(k));
                }
                return true;
            }
            i = i + 1;
        }
        proof {
            if self.has_worker(id@, generation) {
                let k = choose|k: Seq<char>| #[trigger]
                    self.lua_workers.map().contains_key(k)
                        && self.lua_workers.map()[k].generation.pair() == (id@, generation);
                let j = key_has_entry(self.lua_workers.entries@, k);
                assert(self.lua_workers.entries@[j].1.generation.pair() == (id@, generation));
            }
        }
        false
    }
}

/// The identifiers of listed packages.
pub open spec fn info_ids(list: Seq<ExtensionPackageInfo>) -> Seq<Seq<char>> {
    list.map_values(|i: ExtensionPackageInfo| i.id@)
}

/// The identifiers of saved packages.
pub open spec fn saved_ids(list: Seq<PersistedPackageState>) -> Seq<Seq<char>> {
    list.map_values(|i: PersistedPackageState| i.id@)
}

/// Packages with the saved states taken over.
pub open spec fn restored(
    packages: Map<Seq<char>, PackageState>,
    saved: Seq<PersistedPackageState>,
) -> Map<Seq<char>, PackageState>
    decreases saved.len(),
{
    if saved.len() == 0 {
        packages
    } else {
        let before = restored(packages, saved.drop_last());
        let last = saved.last();
        if before.contains_key(last.id@) {
            before.insert(last.id@, PackageState { enabled: last.enabled, ..before[last.id@] })
        } else {
            before
        }
    }
}

/// The message of a package that was found in two places.
pub open spec fn conflict_message(id: Seq<char>, existing: Seq<char>, incoming: Seq<char>) -> Seq<
    char,
> {
    "extension "@ + id + " is already loaded from "@ + existing + "; ignoring "@ + incoming
}

fn conflict_text(id: &str, existing: &str, incoming: &str) -> (out: String)
    ensures
        out@ == conflict_message(id@, existing@, incoming@),
{
    let a = join("extension ", id);
    let b = join(&a, " is already loaded from ");
    let c = join(&b, existing);
    let d = join(&c, "; ignoring ");
    join(&d, incoming)
}

/// The resolved source that an installed package is compared by.
pub open spec fn compared_source(package: PackageState, installed_source: Option<String>) -> Seq<
    char,
> {
    match installed_source {
        Some(s) => s@,
        None => match package.source {
            Some(s) => s@,
            None => Seq::empty(),
        },
    }
}

/// What an entry of a searched directory comes to.
pub enum Finding {
    /// Nothing.
    Nothing,
    /// Something went wrong: code and message.
    Wrong(Seq<char>, Seq<char>),
    /// The package is there already, from the same place.
    Known,
    /// The installed package is linked to the place.
    Linked,
    /// The package is installed and linked to the place.
    Installed,
}

impl ExtensionRuntime {
    /// What an entry of a searched directory comes to.
    pub open spec fn finding(&self, entry: DiscoveryEntry) -> Finding {
        match entry {
            DiscoveryEntry::Unreadable(message) => Finding::Wrong(
                "extension_discovery_failed"@,
                message@,
            ),
            DiscoveryEntry::Other => Finding::Nothing,
            DiscoveryEntry::Package { manifest, path, resolved, installed_source } => {
                let id = manifest.id@;
                let packages = self.packages.map();
                if !packages.contains_key(id) {
                    if is_package_id(id) {
                        Finding::Installed
                    } else {
                        Finding::Wrong("invalid_extension_id"@, "invalid extension package id"@)
                    }
                } else if packages[id].source is None {
                    Finding::Linked
                } else if compared_source(packages[id], installed_source) == resolved@ {
                    Finding::Known
                } else {
                    Finding::Wrong(
                        "extension_source_conflict"@,
                        conflict_message(
                            id,
                            compared_source(packages[id], installed_source),
                            resolved@,
                        ),
                    )
                }
            },
        }
    }
}

/// The first thing that went wrong stays; a later one is not recorded.
pub open spec fn noted(
    before: Option<ExtensionError>,
    after: Option<ExtensionError>,
    code: Seq<char>,
    message: Seq<char>,
) -> bool {
    if before is Some {
        after == before
    } else {
        after matches Some(e) && e.is(code, message)
    }
}

/// The list with one more package: after those whose identifier does not come later, before the rest.
pub open spec fn placed(
    before: Seq<DiscoveredPackage>,
    after: Seq<DiscoveredPackage>,
    package: DiscoveredPackage,
) -> bool {
    exists|at: int|
        {
            &&& 0 <= at <= before.len()
            &&& after == #[trigger] before.insert(at, package)
            &&& forall|i: int|
                0 <= i < at ==> !text_lt(package.info.id@, (#[trigger] before[i]).info.id@)
            &&& forall|i: int|
                at <= i < before.len() ==> text_lt(
                    package.info.id@,
                    (#[trigger] before[i]).info.id@,
                )
        }
}

impl DiscoveryOutcome {
    /// The packages stand in the order of their identifiers.
    pub open spec fn wf(&self) -> bool {
        forall|i: int, j: int|
            0 <= i < j < self.packages@.len() ==> !text_lt(
                (#[trigger] self.packages@[j]).info.id@,
                (#[trigger] self.packages@[i]).info.id@,
            )
    }

    /// Nothing found: what a missing directory gives.
    pub fn empty() -> (out: Self)
        ensures
            out.wf(),
            out.packages@.len() == 0,
            out.diagnostic is None,
    {
        DiscoveryOutcome { packages: Vec::new(), diagnostic: None }
    }

    fn note(&mut self, error: ExtensionError)
        ensures
            final(self).packages == old(self).packages,
            final(self).diagnostic == (if old(self).diagnostic is Some {
                old(self).diagnostic
            } else {
                Some(error)
            }),
    {
        if self.diagnostic.is_none() {
            self.diagnostic = Some(error);
        }
    }

    fn place(&mut self, package: DiscoveredPackage)
        requires
            old(self).wf(),
        ensures
            final(self).wf(),
            final(self).diagnostic == old(self).diagnostic,
            placed(old(self).packages@, final(self).packages@, package),
    {
        let ghost before = self.packages@;
        let mut at: usize = 0;
        while at < self.packages.len() && !comes_before(
            &package.info.id,
            &self.packages[at].info.id,
        )
            invariant
                at <= self.packages@.len(),
                self.packages@ == before,
                self.diagnostic == old(self).diagnostic,
                forall|i: int|
                    0 <= i < at ==> !text_lt(package.info.id@, (#[trigger] before[i]).info.id@),
            decreases self.packages@.len() - at,
        {
            at = at + 1;
        }
        proof {
            assert forall|i: int| at <= i < before.len() implies text_lt(
                package.info.id@,
                (#[trigger] before[i]).info.id@,
            ) by {
                let first = before[at as int].info.id@;
                if i > at {
                    assert(!text_lt(before[i].info.id@, first));
                    text_lt_total(first, before[i].info.id@);
                    if text_lt(first, before[i].info.id@) {
                        text_lt_transitive(package.info.id@, first, before[i].info.id@);
                    }
                }
            }
        }
        self.packages.insert(at, package);
        proof {
            let after = self.packages@;
            assert(after =~= before.insert(at as int, package));
            assert forall|i: int, j: int| 0 <= i < j < after.len() implies !text_lt(
                (#[trigger] after[j]).info.id@,
                (#[trigger] after[i]).info.id@,
            ) by {
                if i == at {
                    assert(after[j] == before[j - 1]);
                    assert(text_lt(package.info.id@, before[j - 1].info.id@));
                    if text_lt(after[j].info.id@, after[i].info.id@) {
                        text_lt_transitive(
                            after[i].info.id@,
                            after[j].info.id@,
                            after[i].info.id@,
                        );
                        text_lt_irreflexive(after[i].info.id@);
                    }
                } else if j == at {
                    assert(after[i] == before[i]);
                } else {
                    let i0 = if i < at { i } else { i - 1 };
                    let j0 = if j < at { j } else { j - 1 };
                    assert(after[i] == before[i0]);
                    assert(after[j] == before[j0]);
                }
            }
        }
    }

    /// The packages that were found, unless something went wrong.
    pub fn finish(self) -> (out: Result<Vec<ExtensionPackageInfo>, ExtensionError>)
        ensures
            match self.diagnostic {
                Some(error) => out == Err::<Vec<ExtensionPackageInfo>, ExtensionError>(error),
                None => out matches Ok(list) && list@.len() == self.packages@.len() && forall|
                    i: int,
                |
                    0 <= i < list@.len() ==> #[trigger] list@[i] == self.packages@[i].info,
            },
    {
        match self.diagnostic {
            Some(error) => Err(error),
            None => {
                let mut rest = self.packages;
                let mut list: Vec<ExtensionPackageInfo> = Vec::new();
                let ghost all = rest@;
                while rest.len() > 0
                    invariant
                        list@.len() + rest@.len() == all.len(),
                        rest@ == all.skip(list@.len() as int),
                        forall|i: int| 0 <= i < list@.len() ==> #[trigger] list@[i] == all[i].info,
                    decreases rest@.len(),
                {
                    let package = rest.remove(0);
                    assert(package == all[list@.len() as int]);
                    list.push(package.info);
                    assert(rest@ =~= all.skip(list@.len() as int));
                }
                Ok(list)
            },
        }
    }
}

/// Whether the host and the outcome of a search are what an entry makes of them.
pub open spec fn discovered(
    before: ExtensionRuntime,
    after: ExtensionRuntime,
    outcome: DiscoveryOutcome,
    result: DiscoveryOutcome,
    entry: DiscoveryEntry,
    saved: Seq<PersistedPackageState>,
) -> bool {
    match before.finding(entry) {
        Finding::Nothing => after == before && result == outcome,
        Finding::Wrong(code, message) => {
            &&& after == before
            &&& result.packages == outcome.packages
            &&& noted(outcome.diagnostic, result.diagnostic, code, message)
        },
        Finding::Known => {
            let id = entry->manifest.id@;
            let package = before.packages.map()[id];
            &&& after == before
            &&& listed(
                outcome,
                result,
                package,
                !before.has_worker(id, package.generation),
            )
        },
        Finding::Linked => {
            let id = entry->manifest.id@;
            let packages = after.packages.map();
            &&& changed_at(before.packages.map(), packages, id)
            &&& linked_package(before.packages.map()[id], packages[id], entry->path@)
            &&& listed(outcome, result, packages[id], true)
        },
        Finding::Installed => {
            let manifest = entry->manifest;
            let packages = after.packages.map();
            &&& changed_at(before.packages.map(), packages, manifest.id@)
            &&& exists|fresh: PackageState| #[trigger]
                fresh_package(fresh, manifest, first_enabled(saved, manifest)) && linked_package(
                    fresh,
                    packages[manifest.id@],
                    entry->path@,
                )
            &&& listed(outcome, result, packages[manifest.id@], true)
        },
    }
}

/// The outcome of a search with one more package.
pub open spec fn listed(
    outcome: DiscoveryOutcome,
    result: DiscoveryOutcome,
    package: PackageState,
    should_load: bool,
) -> bool {
    &&& result.diagnostic == outcome.diagnostic
    &&& exists|found: DiscoveredPackage| #[trigger]
        placed(outcome.packages@, result.packages@, found) && info_shows(found.info, package)
            && found.should_load == should_load
}

impl ExtensionRuntime {
    fn discover_installed(
        &mut self,
        outcome: &mut DiscoveryOutcome,
        manifest: ExtensionPackageManifest,
        path: String,
        resolved: String,
        installed_source: Option<String>,
        saved: &[PersistedPackageState],
    )
        requires
            old(self).wf(),
            old(outcome).wf(),
            old(self).packages.map().contains_key(manifest.id@),
        ensures
            final(self).wf(),
            final(outcome).wf(),
            *final(self) == (ExtensionRuntime { packages: final(self).packages, ..*old(self) }),
            discovered(
                *old(self),
                *final(self),
                *old(outcome),
                *final(outcome),
                DiscoveryEntry::Package { manifest, path, resolved, installed_source },
                saved@,
            ),
    {
        let id = manifest.id.clone();
        match self.packages.get(&id) {
            None => {},
            Some(package) => {
                if package.source.is_none() {
                    match self.link(&id, &path) {
                        Ok(info) => {
                            outcome.place(DiscoveredPackage { info, should_load: true });
                        },
                        Err(_) => {},
                    }
                    return;
                }
                let current = match installed_source {
                    Some(source) => source,
                    None => match &package.source {
                        Some(source) => source.clone(),
                        None => String::new(),
                    },
                };
                if !same_text(&current, &resolved) {
                    let message = conflict_text(&id, &current, &resolved);
                    outcome.note(ExtensionError::new("extension_source_conflict", &message));
                    return;
                }
                let info = package_info(package);
                let should_load = !self.generation_has_worker(&id, package.generation);
                outcome.place(DiscoveredPackage { info, should_load });
            },
        }
    }

    fn discover_new(
        &mut self,
        outcome: &mut DiscoveryOutcome,
        manifest: ExtensionPackageManifest,
        path: String,
        resolved: String,
        installed_source: Option<String>,
        saved: &[PersistedPackageState],
    )
        requires
            old(self).wf(),
            old(outcome).wf(),
            !old(self).packages.map().contains_key(manifest.id@),
        ensures
            final(self).wf(),
            final(outcome).wf(),
            *final(self) == (ExtensionRuntime { packages: final(self).packages, ..*old(self) }),
            discovered(
                *old(self),
                *final(self),
                *old(outcome),
                *final(outcome),
                DiscoveryEntry::Package { manifest, path, resolved, installed_source },
                saved@,
            ),
    {
        let id = manifest.id.clone();
        match self.install(manifest, saved) {
            Err(error) => {
                outcome.note(error);
                return;
            },
            Ok(_) => {},
        }
        let ghost fresh = self.packages.map()[id@];
        assert(fresh_package(fresh, manifest, first_enabled(saved@, manifest)));
        match self.link(&id, &path) {
            Ok(info) => {
                proof {
                    let after = self.packages.map();
                    assert(after =~= old(self).packages.map().insert(id@, after[id@]));
                    assert(linked_package(fresh, after[id@], path@));
                }
                let found = DiscoveredPackage { info, should_load: true };
                outcome.place(found);
                assert(placed(old(outcome).packages@, outcome.packages@, found));
            },
            Err(_) => {},
        }
    }

    /// Takes one entry of a searched directory into account. A package that is new is installed and
    /// linked; one without a source is linked; one that was loaded from elsewhere is left alone and
    /// reported. What goes wrong with one entry does not stop the search.
    pub fn discover_root(
        &mut self,
        outcome: &mut DiscoveryOutcome,
        entry: DiscoveryEntry,
        saved: &[PersistedPackageState],
    )
        requires
            old(self).wf(),
            old(outcome).wf(),
        ensures
            final(self).wf(),
            final(outcome).wf(),
            *final(self) == (ExtensionRuntime { packages: final(self).packages, ..*old(self) }),
            discovered(*old(self), *final(self), *old(outcome), *final(outcome), entry, saved@),
    {
        match entry {
            DiscoveryEntry::Unreadable(message) => {
                outcome.note(ExtensionError::new("extension_discovery_failed", &message));
            },
            DiscoveryEntry::Other => {},
            DiscoveryEntry::Package { manifest, path, resolved, installed_source } => {
                if self.packages.contains(&manifest.id) {
                    self.discover_installed(
                        outcome,
                        manifest,
                        path,
                        resolved,
                        installed_source,
                        saved,
                    );
                } else {
                    self.discover_new(outcome, manifest, path, resolved, installed_source, saved);
                }
            },
        }
    }
}

/// Packages that were found and are being loaded.
#[derive(Debug)]
pub struct PackageLoading {
    pub queue: Vec<DiscoveredPackage>,
    pub loaded: Vec<ExtensionPackageInfo>,
    pub diagnostic: Option<ExtensionError>,
}

/// Position of the first package that has to be loaded, or the length where there is none.
pub open spec fn first_to_load(queue: Seq<DiscoveredPackage>) -> int
    decreases queue.len(),
{
    if queue.len() == 0 {
        0
    } else if queue[0].info.enabled && queue[0].should_load {
        0
    } else {
        1 + first_to_load(queue.drop_first())
    }
}

/// The packages that are enabled and loaded already.
pub open spec fn running(queue: Seq<DiscoveredPackage>) -> Seq<ExtensionPackageInfo>
    decreases queue.len(),
{
    if queue.len() == 0 {
        Seq::empty()
    } else {
        let before = running(queue.drop_last());
        let last = queue.last();
        if last.info.enabled && !last.should_load {
            before.push(last.info)
        } else {
            before
        }
    }
}

proof fn first_to_load_bounds(queue: Seq<DiscoveredPackage>)
    ensures
        0 <= first_to_load(queue) <= queue.len(),
    decreases queue.len(),
{
    if queue.len() > 0 {
        first_to_load_bounds(queue.drop_first());
    }
}

impl PackageLoading {
    /// Begins to load what was found.
    pub fn discover_and_load(outcome: DiscoveryOutcome) -> (out: Self)
        ensures
            out.queue == outcome.packages,
            out.loaded@ == Seq::<ExtensionPackageInfo>::empty(),
            out.diagnostic == outcome.diagnostic,
    {
        PackageLoading {
            queue: outcome.packages,
            loaded: Vec::new(),
            diagnostic: outcome.diagnostic,
        }
    }

    /// The next package to load. Packages that are not enabled are passed over, and those that run
    /// already are listed as they are.
    pub fn next(&mut self) -> (out: Option<ExtensionPackageInfo>)
        ensures
            ({
                let queue = old(self).queue@;
                let at = first_to_load(queue);
                if at < queue.len() {
                    &&& out == Some(queue[at].info)
                    &&& final(self).queue@ == queue.skip(at + 1)
                    &&& final(self).loaded@ == old(self).loaded@ + running(queue.take(at))
                } else {
                    &&& out is None
                    &&& final(self).queue@.len() == 0
                    &&& final(self).loaded@ == old(self).loaded@ + running(queue)
                }
            }),
            final(self).diagnostic == old(self).diagnostic,
    {
        let ghost queue = self.queue@;
        let ghost listed = self.loaded@;
        let ghost mut done: int = 0;
        proof {
            first_to_load_bounds(queue);
            assert(queue.skip(0) =~= queue);
            assert(queue.take(0) =~= Seq::<DiscoveredPackage>::empty());
            assert(listed + running(queue.take(0)) =~= listed);
        }
        while self.queue.len() > 0
            invariant
                0 <= done <= queue.len(),
                self.queue@ == queue.skip(done),
                self.loaded@ == listed + running(queue.take(done)),
                first_to_load(queue) == done + first_to_load(queue.skip(done)),
                self.diagnostic == old(self).diagnostic,
                queue == old(self).queue@,
                listed == old(self).loaded@,
            decreases self.queue@.len(),
        {
            let ghost before = self.loaded@;
            let package = self.queue.remove(0);
            proof {
                assert(package == queue[done]);
                assert(queue.skip(done).drop_first() =~= queue.skip(done + 1));
                assert(self.queue@ =~= queue.skip(done + 1));
                assert(queue.take(done + 1).drop_last() =~= queue.take(done));
                assert(queue.take(done + 1).last() == queue[done]);
            }
            if package.info.enabled {
                if package.should_load {
                    return Some(package.info);
                }
                self.loaded.push(package.info);
                assert(self.loaded@ =~= listed + running(queue.take(done + 1)));
            }
            proof {
                done = done + 1;
            }
        }
        assert(queue.skip(done).len() == 0);
        assert(queue.take(done) =~= queue);
        None
    }

    /// Takes what loading a package came to. The first thing that goes wrong is kept, and the other
    /// packages are loaded all the same.
    pub fn record(&mut self, result: Result<ExtensionPackageInfo, ExtensionError>)
        ensures
            final(self).queue == old(self).queue,
            match result {
                Ok(info) => final(self).loaded@ == old(self).loaded@.push(info)
                    && final(self).diagnostic == old(self).diagnostic,
                Err(error) => final(self).loaded == old(self).loaded && final(self).diagnostic == (
                if old(self).diagnostic is Some {
                    old(self).diagnostic
                } else {
                    Some(error)
                }),
            },
    {
        match result {
            Ok(info) => {
                self.loaded.push(info);
            },
            Err(error) => {
                if self.diagnostic.is_none() {
                    self.diagnostic = Some(error);
                }
            },
        }
    }

    /// The packages that are loaded, or the first thing that went wrong.
    pub fn finish(self) -> (out: Result<Vec<ExtensionPackageInfo>, ExtensionError>)
        ensures
            match self.diagnostic {
                Some(error) => out == Err::<Vec<ExtensionPackageInfo>, ExtensionError>(error),
                None => out == Ok::<Vec<ExtensionPackageInfo>, ExtensionError>(self.loaded),
            },
    {
        match self.diagnostic {
            Some(error) => Err(error),
            None => Ok(self.loaded),
        }
    }
}

/// What was saved of a package decides whether it starts enabled, and where nothing was, its own default
/// does.
pub proof fn saved_choice_counts(
    saved: Seq<PersistedPackageState>,
    manifest: ExtensionPackageManifest,
    i: int,
)
    ensures
        0 <= i < saved.len() && saved[i].id@ == manifest.id@ && (forall|j: int|
            0 <= j < i ==> (#[trigger] saved[j]).id@ != manifest.id@) ==> first_enabled(
            saved,
            manifest,
        ) == saved[i].enabled,
        (forall|j: int| 0 <= j < saved.len() ==> (#[trigger] saved[j]).id@ != manifest.id@)
            ==> first_enabled(saved, manifest) == manifest.default_enabled,
    decreases saved.len(),
{
    if saved.len() > 0 {
        let rest = saved.drop_first();
        saved_choice_counts(rest, manifest, i - 1);
        if 0 < i < saved.len() {
            assert(rest[i - 1] == saved[i]);
            assert forall|j: int| 0 <= j < i - 1 implies (#[trigger] rest[j]).id@
                == saved[j + 1].id@ by {}
        }
        assert forall|j: int| 0 <= j < rest.len() implies (#[trigger] rest[j]).id@ == saved[j
            + 1].id@ by {}
        if forall|j: int| 0 <= j < saved.len() ==> (#[trigger] saved[j]).id@ != manifest.id@ {
            assert(saved[0].id@ != manifest.id@);
        }
    }
}

/// Restoring what was saved enables or disables each package as it was saved last, changes nothing else of
/// it, and adds and takes away none.
pub proof fn restoring_sets_what_was_saved(
    packages: Map<Seq<char>, PackageState>,
    saved: Seq<PersistedPackageState>,
    id: Seq<char>,
    i: int,
)
    ensures
        restored(packages, saved).dom() == packages.dom(),
        packages.contains_key(id) ==> {
            let after = restored(packages, saved)[id];
            &&& after == (PackageState { enabled: after.enabled, ..packages[id] })
            &&& 0 <= i < saved.len() && saved[i].id@ == id && (forall|j: int|
                i < j < saved.len() ==> (#[trigger] saved[j]).id@ != id) ==> after.enabled
                == saved[i].enabled
            &&& (forall|j: int| 0 <= j < saved.len() ==> (#[trigger] saved[j]).id@ != id) ==> after
                == packages[id]
        },
    decreases saved.len(),
{
    if saved.len() > 0 {
        let rest = saved.drop_last();
        restoring_sets_what_was_saved(packages, rest, id, i);
        let before = restored(packages, rest);
        assert(restored(packages, saved).dom() =~= before.dom());
        assert forall|j: int| 0 <= j < rest.len() implies #[trigger] rest[j] == saved[j] by {}
        assert(saved.last() == saved[saved.len() - 1]);
        if 0 <= i < saved.len() - 1 && (forall|j: int|
            i < j < saved.len() ==> (#[trigger] saved[j]).id@ != id) {
            assert(saved[saved.len() - 1].id@ != id);
            assert(rest[i] == saved[i]);
        }
    } else {
        assert(restored(packages, saved) == packages);
    }
}

/// The package to load next is the first in the queue that is enabled and is to be loaded.
pub proof fn first_to_load_is_first(queue: Seq<DiscoveredPackage>)
    ensures
        ({
            let at = first_to_load(queue);
            &&& 0 <= at <= queue.len()
            &&& at < queue.len() ==> queue[at].info.enabled && queue[at].should_load
            &&& forall|i: int|
                0 <= i < at ==> !((#[trigger] queue[i]).info.enabled && queue[i].should_load)
        }),
    decreases queue.len(),
{
    if queue.len() > 0 {
        let rest = queue.drop_first();
        first_to_load_is_first(rest);
        let at = first_to_load(queue);
        assert forall|i: int| 0 <= i < at implies !((#[trigger] queue[i]).info.enabled
            && queue[i].should_load) by {
            if i > 0 {
                assert(queue[i] == rest[i - 1]);
            }
        }
        if at > 0 && at < queue.len() {
            assert(queue[at] == rest[at - 1]);
        }
    }
}

/// The packages that run already are those in the queue that are enabled and need no loading.
pub proof fn running_are_enabled(queue: Seq<DiscoveredPackage>, info: ExtensionPackageInfo)
    ensures
        running(queue).contains(info) <==> exists|i: int|
            0 <= i < queue.len() && (#[trigger] queue[i]).info == info && queue[i].info.enabled
                && !queue[i].should_load,
    decreases queue.len(),
{
    if queue.len() > 0 {
        let rest = queue.drop_last();
        let last = queue.last();
        running_are_enabled(rest, info);
        let before = running(rest);
        assert(queue[queue.len() - 1] == last);
        if running(queue).contains(info) {
            if before.contains(info) {
                let i = choose|i: int|
                    0 <= i < rest.len() && (#[trigger] rest[i]).info == info
                        && rest[i].info.enabled && !rest[i].should_load;
                assert(queue[i] == rest[i]);
            } else {
                let k = choose|k: int| 0 <= k < running(queue).len() && running(queue)[k] == info;
                if k < before.len() {
                    assert(before[k] == info);
                    assert(before.contains(info));
                }
                assert(last.info == info);
            }
        }
        if exists|i: int|
            0 <= i < queue.len() && (#[trigger] queue[i]).info == info && queue[i].info.enabled
                && !queue[i].should_load {
            let i = choose|i: int|
                0 <= i < queue.len() && (#[trigger] queue[i]).info == info
                    && queue[i].info.enabled && !queue[i].should_load;
            if i < rest.len() {
                assert(rest[i] == queue[i]);
                assert(before.contains(info));
                let k = choose|k: int| 0 <= k < before.len() && before[k] == info;
                assert(running(queue)[k] == info);
            } else {
                assert(running(queue) == before.push(last.info));
                assert(running(queue)[before.len() as int] == info);
            }
        }
    } else {
        assert(!running(queue).contains(info));
    }
}

/// A package that is found is installed where none of its name is known, linked where the known one has
/// no source, and known where the sources are the same; any other is wrong, and so is what could not be
/// read.
pub proof fn found_packages_are_told_apart(host: ExtensionRuntime, entry: DiscoveryEntry)
    ensures
        entry is Other ==> host.finding(entry) is Nothing,
        entry matches DiscoveryEntry::Unreadable(message) ==> host.finding(entry) == Finding::Wrong(
            "extension_discovery_failed"@,
            message@,
        ),
        entry matches DiscoveryEntry::Package { manifest, path, resolved, installed_source } ==> {
            let known = host.packages.map().contains_key(manifest.id@);
            let package = host.packages.map()[manifest.id@];
            let finding = host.finding(entry);
            &&& !known && is_package_id(manifest.id@) <==> finding is Installed
            &&& known && package.source is None <==> finding is Linked
            &&& !known && !is_package_id(manifest.id@) ==> finding is Wrong
            &&& known && package.source is Some ==> match installed_source {
                Some(source) => (finding is Known <==> source@ == resolved@) && (finding is Wrong
                    <==> source@ != resolved@),
                None => (finding is Known <==> package.source->Some_0@ == resolved@) && (finding
                    is Wrong <==> package.source->Some_0@ != resolved@),
            }
        },
{
}

/// What is shown of a package is what the host holds of it.
pub proof fn shown_as_it_is(info: ExtensionPackageInfo, package: PackageState)
    requires
        info_shows(info, package),
    ensures
        info.id@ == package.manifest.id@,
        info.name@ == package.manifest.name@,
        info.version@ == package.manifest.version@,
        info.generation == package.generation,
        info.enabled == package.enabled,
        info.linked == package.linked,
        info.source is Some <==> package.source is Some,
        info.source matches Some(s) ==> s@ == package.source->Some_0@,
        texts(info.commands@) == texts(package.commands.items@),
        texts(info.events@) == texts(package.events.items@),
{
}

/// The first package of a name is in its first generation, holds nothing yet, and stands for its
/// manifest.
pub proof fn fresh_packages_hold_nothing(
    package: PackageState,
    manifest: ExtensionPackageManifest,
    enabled: bool,
    name: Seq<char>,
)
    requires
        fresh_package(package, manifest, enabled),
    ensures
        package.manifest == manifest,
        package.generation == 1,
        package.enabled == enabled,
        !package.linked,
        !package.cancelled,
        package.source is None,
        !package.commands.set().contains(name),
        !package.events.set().contains(name),
{
}

/// What is found first to be wrong is what is told, and what is found later does not take its place.
pub proof fn first_problem_is_told(
    before: Option<ExtensionError>,
    after: Option<ExtensionError>,
    code: Seq<char>,
    message: Seq<char>,
)
    requires
        noted(before, after, code, message),
    ensures
        after is Some,
        before is Some ==> after == before,
        before is None ==> after->Some_0.code@ == code && after->Some_0.message@ == message,
{
}

/// A package that is found is listed once, with what the host holds of it, and none that was listed is
/// lost.
pub proof fn found_packages_are_listed(
    outcome: DiscoveryOutcome,
    result: DiscoveryOutcome,
    package: PackageState,
    should_load: bool,
    i: int,
)
    requires
        listed(outcome, result, package, should_load),
    ensures
        result.diagnostic == outcome.diagnostic,
        result.packages@.len() == outcome.packages@.len() + 1,
        exists|k: int|
            0 <= k < result.packages@.len() && info_shows(
                (#[trigger] result.packages@[k]).info,
                package,
            ) && result.packages@[k].should_load == should_load,
        0 <= i < outcome.packages@.len() ==> result.packages@.contains(outcome.packages@[i]),
{
    let before = outcome.packages@;
    let after = result.packages@;
    let found = choose|found: DiscoveredPackage| #[trigger]
        placed(before, after, found) && info_shows(found.info, package) && found.should_load
            == should_load;
    let at = choose|at: int|
        {
            &&& 0 <= at <= before.len()
            &&& after == #[trigger] before.insert(at, found)
            &&& forall|i: int|
                0 <= i < at ==> !text_lt(found.info.id@, (#[trigger] before[i]).info.id@)
            &&& forall|i: int|
                at <= i < before.len() ==> text_lt(found.info.id@, (#[trigger] before[i]).info.id@)
        };
    assert(after[at] == found);
    if 0 <= i < before.len() {
        if i < at {
            assert(after[i] == before[i]);
        } else {
            assert(after[i + 1] == before[i]);
        }
    }
}

}
