//! Surfaces that packages show.

use vstd::prelude::*;
use vstd::utf8::encode_utf8;
use super::error::ExtensionError;
use super::ids::ExtensionGeneration;
use super::runtime::{key_of, refused_by, ExtensionRuntime, SurfaceSpec};
use crate::text::same_text;
use crate::text::texts;
use crate::text_set::ascending;

verus! {

/// How many surfaces may be open.
pub const EXTENSION_SURFACE_LIMIT: usize = 64;

/// What happened to a surface.
#[derive(Clone, Debug, PartialEq, Eq)]
pub struct SurfaceLifecycleEvent {
    pub operation: String,
    pub surface: SurfaceSpec,
    pub generation: ExtensionGeneration,
}

impl SurfaceSpec {
    /// A copy of this surface.
    pub fn copy(&self) -> (out: Self)
        ensures
            out == *self,
    {
        SurfaceSpec {
            id: self.id.clone(),
            title: self.title.clone(),
            presentation: self.presentation,
            payload: self.payload.clone(),
        }
    }
}

impl ExtensionRuntime {
    /// Why a generation may not open a surface; `None` where it may.
    pub open spec fn surface_refusal(&self, id: Seq<char>, generation: u64, surface: Seq<char>) -> Option<
        (Seq<char>, Seq<char>),
    > {
        let surfaces = self.surfaces.map();
        if self.refusal(id, generation) is Some {
            self.refusal(id, generation)
        } else if surface.len() == 0 || encode_utf8(surface).len() > 128 {
            Some(("invalid_surface"@, "surface id is invalid"@))
        } else if surfaces.contains_key(surface) && surfaces[surface].generation.pair() != (
            id,
            generation,
        ) {
            Some(("surface_collision"@, "surface id belongs to another extension generation"@))
        } else if surfaces.len() >= EXTENSION_SURFACE_LIMIT && !surfaces.contains_key(surface) {
            Some(("surface_limit"@, "surface limit reached"@))
        } else {
            None
        }
    }

    /// Checks a surface, and gives the event that announces it.
    pub fn open_surface(&self, id: &str, generation: u64, spec: SurfaceSpec) -> (out: Result<
        SurfaceLifecycleEvent,
        ExtensionError,
    >)
        requires
            self.wf(),
        ensures
            out is Ok <==> self.surface_refusal(id@, generation, spec.id@) is None,
            refused_by(out, self.surface_refusal(id@, generation, spec.id@)),
            out matches Ok(event) ==> {
                &&& event.operation@ == "opened"@
                &&& event.surface == spec
                &&& event.generation.pair() == (id@, generation)
            },
    {
        match self.package_generation(id, generation) {
            Err(error) => {
                return Err(error);
            },
            Ok(_) => {},
        }
        if spec.id.as_str().is_empty() || spec.id.as_str().as_bytes().len() > 128 {
            return Err(ExtensionError::new("invalid_surface", "surface id is invalid"));
        }
        let known = match self.surfaces.get(&spec.id) {
            Some(existing) => {
                if !existing.generation.is(id, generation) {
                    return Err(
                        ExtensionError::new(
                            "surface_collision",
                            "surface id belongs to another extension generation",
                        ),
                    );
                }
                true
            },
            None => false,
        };
        if self.surfaces.len() >= EXTENSION_SURFACE_LIMIT && !known {
            return Err(ExtensionError::new("surface_limit", "surface limit reached"));
        }
        Ok(
            SurfaceLifecycleEvent {
                operation: "opened".to_owned(),
                surface: spec,
                generation: ExtensionGeneration::of(id, generation),
            },
        )
    }

    /// Forgets a surface whose opening could not be announced.
    pub fn open_surface_failed(&mut self, surface: &str)
        requires
            old(self).wf(),
        ensures
            final(self).wf(),
            *final(self) == (ExtensionRuntime { surfaces: final(self).surfaces, ..*old(self) }),
            final(self).surfaces.map() == old(self).surfaces.map().remove(surface@),
    {
        let key = key_of(surface);
        let _ = self.surfaces.remove(&key);
    }

    /// Gives the event that announces the end of a surface; `None` where there is no such surface.
    pub fn close_surface(&self, id: &str, generation: u64, surface: &str) -> (out: Result<
        Option<SurfaceLifecycleEvent>,
        ExtensionError,
    >)
        requires
            self.wf(),
        ensures
            refused_by(out, self.refusal(id@, generation)),
            self.refusal(id@, generation) is None ==> {
                let surfaces = self.surfaces.map();
                if !surfaces.contains_key(surface@) {
                    out == Ok::<Option<SurfaceLifecycleEvent>, ExtensionError>(None)
                } else if surfaces[surface@].generation.pair() != (id@, generation) {
                    out matches Err(e) && e.is("stale_generation"@, "surface generation is stale"@)
                } else {
                    out matches Ok(Some(event)) && event.operation@ == "closed"@ && event.surface
                        == surfaces[surface@].spec && event.generation
                        == surfaces[surface@].generation
                }
            },
    {
        match self.package_generation(id, generation) {
            Err(error) => {
                return Err(error);
            },
            Ok(_) => {},
        }
        let key = key_of(surface);
        match self.surfaces.get(&key) {
            None => Ok(None),
            Some(record) => if !record.generation.is(id, generation) {
                Err(ExtensionError::new("stale_generation", "surface generation is stale"))
            } else {
                Ok(
                    Some(
                        SurfaceLifecycleEvent {
                            operation: "closed".to_owned(),
                            surface: record.spec.copy(),
                            generation: record.generation.copy(),
                        },
                    ),
                )
            },
        }
    }

    /// Whether a listed surface is one of those that were asked for.
    pub open spec fn surface_asked(&self, surface: Seq<char>, id: Option<&str>) -> bool {
        self.surfaces.map().contains_key(surface) && (match id {
            Some(id) => self.surfaces.map()[surface].generation.extension_id@ == id@,
            None => true,
        })
    }

    /// The open surfaces, of one package or of all, in the order of the names that they are kept
    /// under.
    pub fn surfaces(&self, id: Option<&str>) -> (out: Vec<SurfaceLifecycleEvent>)
        requires
            self.wf(),
        ensures
            exists|names: Seq<Seq<char>>| #[trigger]
                ascending(names) && names.len() == out@.len() && (forall|name: Seq<char>|
                    names.contains(name) <==> #[trigger] self.surface_asked(name, id)) && forall|
                    i: int,
                |
                    0 <= i < out@.len() ==> (#[trigger] out@[i]).operation@ == "active"@
                        && out@[i].surface == self.surfaces.map()[names[i]].spec
                        && out@[i].generation == self.surfaces.map()[names[i]].generation,
    {
        let keys = self.surfaces.keys();
        let mut out: Vec<SurfaceLifecycleEvent> = Vec::new();
        let mut i: usize = 0;
        let ghost all = texts(keys.items@);
        let ghost mut names: Seq<Seq<char>> = Seq::empty();
        let ghost mut places: Seq<int> = Seq::empty();
        while i < keys.items.len()
            invariant
                i <= keys.items@.len(),
                self.wf(),
                keys.wf(),
                all == texts(keys.items@),
                keys.set() == self.surfaces.map().dom(),
                names.len() == out@.len(),
                places.len() == out@.len(),
                forall|j: int| 0 <= j < names.len() ==> 0 <= #[trigger] places[j] < i && names[j] == all[places[j]],
                forall|j: int, k: int| 0 <= j < k < places.len() ==> places[j] < places[k],
                forall|j: int| 0 <= j < names.len() ==> self.surface_asked(#[trigger] names[j], id),
                forall|j: int|
                    0 <= j < i && self.surface_asked(#[trigger] all[j], id) ==> names.contains(all[j]),
                forall|j: int|
                    0 <= j < out@.len() ==> (#[trigger] out@[j]).operation@ == "active"@
                        && out@[j].surface == self.surfaces.map()[names[j]].spec
                        && out@[j].generation == self.surfaces.map()[names[j]].generation,
            decreases keys.items@.len() - i,
        {
            assert(all[i as int] == keys.items@[i as int]@);
            assert(keys.set().contains(all[i as int]));
            let ghost before = names;
            match self.surfaces.get(&keys.items[i]) {
                Some(record) => {
                    let wanted = match id {
                        Some(id) => same_text(&record.generation.extension_id, id),
                        None => true,
                    };
                    if wanted {
                        out.push(
                            SurfaceLifecycleEvent {
                                operation: "active".to_owned(),
                                surface: record.spec.copy(),
                                generation: record.generation.copy(),
                            },
                        );
                        proof {
                            names = names.push(all[i as int]);
                            places = places.push(i as int);
                            assert(names[names.len() - 1] == all[i as int]);
                            assert forall|j: int| 0 <= j < i && self.surface_asked(#[trigger] all[j], id) implies names.contains(all[j]) by {
                                let k = choose|k: int| 0 <= k < before.len() && before[k] == all[j];
                                assert(names[k] == all[j]);
                            }
                        }
                    }
                },
                None => {},
            }
            i = i + 1;
        }
        proof {
            assert forall|j: int, k: int| 0 <= j < k < names.len() implies crate::text_set::text_lt(#[trigger] names[j], #[trigger] names[k]) by {
                assert(places[j] < places[k]);
                assert(names[j] == all[places[j]]);
                assert(names[k] == all[places[k]]);
            }
            assert forall|name: Seq<char>| names.contains(name) <==> #[trigger] self.surface_asked(name, id) by {
                if self.surface_asked(name, id) {
                    assert(keys.set().contains(name));
                    let j = choose|j: int| 0 <= j < all.len() && all[j] == name;
                    assert(names.contains(all[j]));
                }
            }
            assert(ascending(names));
        }
        out
    }
}

/// A surface is one that is asked for where it is open and, where a package is named, is of that package.
pub proof fn surfaces_of_a_package_are_listed(host: ExtensionRuntime, surface: Seq<char>, id: &str)
    ensures
        host.surface_asked(surface, None) <==> host.surfaces.map().contains_key(surface),
        host.surface_asked(surface, Some(id)) <==> host.surfaces.map().contains_key(surface)
            && host.surfaces.map()[surface].generation.extension_id@ == id@,
{
}

}
