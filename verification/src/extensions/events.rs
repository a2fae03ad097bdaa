//! Topics, events and subscriptions of packages.

use vstd::prelude::*;
use vstd::utf8::encode_utf8;
use super::command::{CommandTarget, OwnerIdentity, ResourceKind};
use super::error::ExtensionError;
use super::ids::{extension_scope, scope_text, ExtensionGeneration};
use super::packages::changed_at;
use super::registrations::Committed;
use super::runtime::{key_of, refused_by, ExtensionEventRegistration, ExtensionRuntime, PackageState, SubscriptionRecord};
use crate::table::TableKey;
use crate::text::{has_prefix, join, same_text, starts_with};

verus! {

/// The full name of a topic: a package's topics begin with its identifier and a dot.
pub open spec fn topic_text(id: Seq<char>, name: Seq<char>) -> Seq<char> {
    if starts_with(name, id + "."@) {
        name
    } else {
        id + "."@ + name
    }
}

/// A package with one more topic.
pub open spec fn with_event(before: PackageState, after: PackageState, topic: Seq<char>) -> bool {
    &&& after == (PackageState { events: after.events, ..before })
    &&& after.events.wf()
    &&& after.events.set() == before.events.set().insert(topic)
}

/// Whether a target, where there is one, is the generation itself.
pub open spec fn own_target(id: Seq<char>, generation: u64, target: Option<CommandTarget>) -> bool {
    match target {
        Some(t) => t.id() == (ResourceKind::Extension, id, generation),
        None => true,
    }
}

/// Refuses a target that is not the generation itself.
pub fn validate_metadata_target(id: &str, generation: u64, target: &Option<CommandTarget>) -> (out:
    Result<(), ExtensionError>)
    ensures
        out is Ok <==> own_target(id@, generation, *target),
        out matches Err(e) ==> e.is(
            "invalid_binding_target"@,
            "metadata target is not owned by this extension generation"@,
        ),
{
    let own = match target {
        Some(t) => t.kind == ResourceKind::Extension && same_text(&t.handle, id) && t.generation
            == generation,
        None => true,
    };
    if own {
        Ok(())
    } else {
        Err(
            ExtensionError::new(
                "invalid_binding_target",
                "metadata target is not owned by this extension generation",
            ),
        )
    }
}

impl ExtensionRuntime {
    /// Why a topic cannot be reserved; `None` where it can.
    pub open spec fn event_refusal(&self, id: Seq<char>, generation: u64, topic: Seq<char>) -> Option<
        (Seq<char>, Seq<char>),
    > {
        if self.refusal(id, generation) is Some {
            self.refusal(id, generation)
        } else if self.event_reservations.map().contains_key(topic)
            || self.events.map().contains_key(topic) {
            Some(("event_collision"@, "event topic is already registered"@))
        } else {
            None
        }
    }

    /// Reserves a topic for a generation, and gives its full name.
    pub fn register_event(&mut self, id: &str, generation: u64, name: &str) -> (out: Result<
        String,
        ExtensionError,
    >)
        requires
            old(self).wf(),
        ensures
            final(self).wf(),
            *final(self) == (ExtensionRuntime {
                event_reservations: final(self).event_reservations,
                ..*old(self)
            }),
            out is Ok <==> old(self).event_refusal(id@, generation, topic_text(id@, name@)) is None,
            refused_by(out, old(self).event_refusal(id@, generation, topic_text(id@, name@))),
            out is Err ==> *final(self) == *old(self),
            out matches Ok(topic) ==> {
                let after = final(self).event_reservations.map();
                &&& topic@ == topic_text(id@, name@)
                &&& changed_at(old(self).event_reservations.map(), after, topic@)
                &&& after[topic@].pair() == (id@, generation)
            },
    {
        match self.package_generation(id, generation) {
            Err(error) => {
                return Err(error);
            },
            Ok(_) => {},
        }
        let prefix = join(id, ".");
        let topic = if has_prefix(name, &prefix) {
            name.to_owned()
        } else {
            join(&prefix, name)
        };
        if self.event_reservations.contains(&topic) || self.events.contains(&topic) {
            return Err(
                ExtensionError::new("event_collision", "event topic is already registered"),
            );
        }
        let key = topic.clone();
        self.event_reservations.insert(key, ExtensionGeneration::of(id, generation));
        Ok(topic)
    }

    /// Whether a topic is reserved for a generation.
    pub open spec fn event_reserved(&self, id: Seq<char>, generation: u64, topic: Seq<char>) -> bool {
        self.event_reservations.map().contains_key(topic)
            && self.event_reservations.map()[topic].pair() == (id, generation)
    }

    /// Commits a reserved topic with what came of registering it, or drops the reservation.
    pub fn commit_event(
        &mut self,
        id: &str,
        generation: u64,
        topic: String,
        registered: Result<(), ExtensionError>,
    ) -> (out: Committed<ExtensionEventRegistration>)
        requires
            old(self).wf(),
        ensures
            final(self).wf(),
            *final(self) == (ExtensionRuntime {
                packages: final(self).packages,
                events: final(self).events,
                event_reservations: final(self).event_reservations,
                ..*old(self)
            }),
            final(self).event_reservations.map() == old(self).event_reservations.map().remove(
                topic@,
            ),
            out.result is Err ==> final(self).packages == old(self).packages && final(self).events
                == old(self).events,
            match registered {
                Err(error) => !out.undo && out.result == Err::<
                    ExtensionEventRegistration,
                    ExtensionError,
                >(error),
                Ok(_) => {
                    let valid = old(self).active(id@, generation);
                    let reserved = old(self).event_reserved(id@, generation, topic@);
                    let taken = old(self).events.map().contains_key(topic@);
                    &&& out.undo <==> out.result is Err
                    &&& out.result is Ok <==> valid && reserved && !taken
                    &&& !(valid && reserved) ==> (out.result matches Err(e) && e.is(
                        "stale_generation"@,
                        "extension generation is stale"@,
                    ))
                    &&& valid && reserved && taken ==> (out.result matches Err(e) && e.is(
                        "event_collision"@,
                        "event topic is already registered"@,
                    ))
                    &&& out.result matches Ok(registration) ==> {
                        let packages = final(self).packages.map();
                        let events = final(self).events.map();
                        &&& registration.topic@ == topic@
                        &&& registration.generation.pair() == (id@, generation)
                        &&& changed_at(old(self).packages.map(), packages, id@)
                        &&& with_event(old(self).packages.map()[id@], packages[id@], topic@)
                        &&& changed_at(old(self).events.map(), events, topic@)
                        &&& events[topic@].topic@ == topic@
                        &&& events[topic@].generation.pair() == (id@, generation)
                    }
                },
            },
    {
        let reserved = match self.event_reservations.remove(&topic) {
            Some(holder) => holder.is(id, generation),
            None => false,
        };
        match registered {
            Err(error) => {
                return Committed { result: Err(error), undo: false };
            },
            Ok(()) => {},
        }
        let valid = self.validate_package_state(id, generation).is_ok();
        if !valid || !reserved {
            return Committed {
                result: Err(
                    ExtensionError::new("stale_generation", "extension generation is stale"),
                ),
                undo: true,
            };
        }
        if self.events.contains(&topic) {
            return Committed {
                result: Err(
                    ExtensionError::new("event_collision", "event topic is already registered"),
                ),
                undo: true,
            };
        }
        let key = key_of(id);
        match self.packages.remove(&key) {
            None => {},
            Some(mut package) => {
                package.events.insert(&topic);
                self.packages.insert(key, package);
                proof {
                    let before = old(self).packages.map();
                    let after = self.packages.map();
                    assert(after =~= before.insert(id@, after[id@]));
                }
            },
        }
        let registration = ExtensionEventRegistration {
            topic: topic.clone(),
            generation: ExtensionGeneration::of(id, generation),
        };
        self.events.insert(
            topic.clone(),
            ExtensionEventRegistration {
                topic,
                generation: ExtensionGeneration::of(id, generation),
            },
        );
        Committed { result: Ok(registration), undo: false }
    }

    /// Why a topic is not open to a generation; `None` where it is.
    pub open spec fn topic_refusal(&self, id: Seq<char>, generation: u64, topic: Seq<char>) -> Option<
        (Seq<char>, Seq<char>),
    > {
        if !self.events.map().contains_key(topic) {
            Some(("unknown_event"@, "event topic is not registered"@))
        } else if self.events.map()[topic].generation.pair() != (id, generation) {
            Some(("stale_generation"@, "event generation is stale"@))
        } else {
            None
        }
    }

    /// Why a generation may not publish an event; `None` where it may.
    pub open spec fn publication_refusal(
        &self,
        id: Seq<char>,
        generation: u64,
        topic: Seq<char>,
        scope: Seq<char>,
        target: Option<CommandTarget>,
        payload: Seq<char>,
    ) -> Option<(Seq<char>, Seq<char>)> {
        if self.refusal(id, generation) is Some {
            self.refusal(id, generation)
        } else if scope != scope_text(id, generation) {
            Some(("invalid_binding_scope"@, "extension event scope is host-owned"@))
        } else if !own_target(id, generation, target) {
            Some(
                (
                    "invalid_binding_target"@,
                    "metadata target is not owned by this extension generation"@,
                ),
            )
        } else if self.topic_refusal(id, generation, topic) is Some {
            self.topic_refusal(id, generation, topic)
        } else if encode_utf8(payload).len() > self.event_byte_limit {
            Some(("event_too_large"@, "event payload exceeds host limit"@))
        } else {
            None
        }
    }

    fn check_topic(&self, id: &str, generation: u64, topic: &str) -> (out: Result<
        (),
        ExtensionError,
    >)
        requires
            self.wf(),
        ensures
            out is Ok <==> self.topic_refusal(id@, generation, topic@) is None,
            refused_by(out, self.topic_refusal(id@, generation, topic@)),
    {
        let key = key_of(topic);
        match self.events.get(&key) {
            None => Err(ExtensionError::new("unknown_event", "event topic is not registered")),
            Some(registration) => if registration.generation.is(id, generation) {
                Ok(())
            } else {
                Err(ExtensionError::new("stale_generation", "event generation is stale"))
            },
        }
    }

    /// Checks an event before it is published. `payload` is its compact JSON text.
    pub fn publish_event(
        &self,
        id: &str,
        generation: u64,
        topic: &str,
        scope: &str,
        payload: &str,
        target: &Option<CommandTarget>,
    ) -> (out: Result<(), ExtensionError>)
        requires
            self.wf(),
        ensures
            out is Ok <==> self.publication_refusal(
                id@,
                generation,
                topic@,
                scope@,
                *target,
                payload@,
            ) is None,
            refused_by(
                out,
                self.publication_refusal(id@, generation, topic@, scope@, *target, payload@),
            ),
    {
        match self.package_generation(id, generation) {
            Err(error) => {
                return Err(error);
            },
            Ok(_) => {},
        }
        let own = extension_scope(id, generation);
        if !same_text(scope, &own) {
            return Err(
                ExtensionError::new("invalid_binding_scope", "extension event scope is host-owned"),
            );
        }
        match validate_metadata_target(id, generation, target) {
            Err(error) => {
                return Err(error);
            },
            Ok(()) => {},
        }
        match self.check_topic(id, generation, topic) {
            Err(error) => {
                return Err(error);
            },
            Ok(()) => {},
        }
        if payload.as_bytes().len() > self.event_byte_limit {
            return Err(ExtensionError::new("event_too_large", "event payload exceeds host limit"));
        }
        Ok(())
    }

    /// Why a generation may not subscribe to a topic; `None` where it may.
    pub open spec fn subscription_refusal(
        &self,
        id: Seq<char>,
        generation: u64,
        topic: Seq<char>,
        scope: Seq<char>,
    ) -> Option<(Seq<char>, Seq<char>)> {
        if self.refusal(id, generation) is Some {
            self.refusal(id, generation)
        } else if scope != scope_text(id, generation) {
            Some(("invalid_binding_scope"@, "extension event scope is host-owned"@))
        } else {
            self.topic_refusal(id, generation, topic)
        }
    }

    /// Checks a subscription before it is made.
    pub fn subscribe_event(&self, id: &str, generation: u64, topic: &str, scope: &str) -> (out: Result<
        (),
        ExtensionError,
    >)
        requires
            self.wf(),
        ensures
            out is Ok <==> self.subscription_refusal(id@, generation, topic@, scope@) is None,
            refused_by(out, self.subscription_refusal(id@, generation, topic@, scope@)),
    {
        match self.package_generation(id, generation) {
            Err(error) => {
                return Err(error);
            },
            Ok(_) => {},
        }
        let own = extension_scope(id, generation);
        if !same_text(scope, &own) {
            return Err(
                ExtensionError::new("invalid_binding_scope", "extension event scope is host-owned"),
            );
        }
        self.check_topic(id, generation, topic)
    }

    /// Records a subscription that was made. One whose generation was retired in between is refused,
    /// and the caller ends it.
    pub fn commit_subscription(
        &mut self,
        id: &str,
        generation: u64,
        owner: OwnerIdentity,
        subscription: &str,
    ) -> (out: Result<(), ExtensionError>)
        requires
            old(self).wf(),
        ensures
            final(self).wf(),
            *final(self) == (ExtensionRuntime {
                subscriptions: final(self).subscriptions,
                ..*old(self)
            }),
            out is Ok <==> old(self).active(id@, generation),
            out matches Err(e) ==> *final(self) == *old(self) && e.is(
                "stale_generation"@,
                "event generation is stale"@,
            ),
            out is Ok ==> {
                let after = final(self).subscriptions.map();
                &&& changed_at(old(self).subscriptions.map(), after, subscription@)
                &&& after[subscription@].owner == owner
                &&& after[subscription@].generation.pair() == (id@, generation)
            },
    {
        if self.validate_package_state(id, generation).is_err() {
            return Err(ExtensionError::new("stale_generation", "event generation is stale"));
        }
        self.subscriptions.insert(
            key_of(subscription),
            SubscriptionRecord { owner, generation: ExtensionGeneration::of(id, generation) },
        );
        Ok(())
    }

    /// Forgets a subscription that was ended.
    pub fn unsubscribe_event(&mut self, subscription: &str)
        requires
            old(self).wf(),
        ensures
            final(self).wf(),
            *final(self) == (ExtensionRuntime {
                subscriptions: final(self).subscriptions,
                ..*old(self)
            }),
            final(self).subscriptions.map() == old(self).subscriptions.map().remove(subscription@),
    {
        let key = key_of(subscription);
        let _ = self.subscriptions.remove(&key);
    }
}

/// A topic that is registered is listed with its package, and nothing else of the package changes; it is
/// reserved for the generation that reserved it, and for no other.
pub proof fn registered_topics_are_listed(
    host: ExtensionRuntime,
    before: PackageState,
    after: PackageState,
    topic: Seq<char>,
    other: Seq<char>,
    id: Seq<char>,
    generation: u64,
)
    requires
        with_event(before, after, topic),
    ensures
        after.events.set().contains(topic),
        other != topic ==> (after.events.set().contains(other) <==> before.events.set().contains(
            other,
        )),
        after.commands == before.commands,
        after.generation == before.generation,
        after.enabled == before.enabled,
        host.event_reserved(id, generation, topic) <==> {
            let holder = host.event_reservations.map()[topic];
            &&& host.event_reservations.map().contains_key(topic)
            &&& holder.extension_id@ == id
            &&& holder.generation == generation
        },
{
}

}
