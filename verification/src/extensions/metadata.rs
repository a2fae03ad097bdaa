//! Metadata that packages publish.
//!
//! The host keeps a package's metadata under a namespace that begins with the package's identifier;
//! the package sees the namespace without it.

use vstd::prelude::*;
use vstd::utf8::encode_utf8;
use super::command::{copy_target, target_id, CommandTarget, OwnerIdentity, TargetId};
use super::error::ExtensionError;
use super::events::{own_target, validate_metadata_target};
use super::ids::{is_metadata_namespace, metadata_namespace_text, namespaced_metadata_namespace, scope_text};
use super::json::{natural_field, text_field, Json};
use super::runtime::{refused_by, BindingId, ExtensionResourceBinding, ExtensionRuntime, MetadataBinding, MetadataBindingKey};
use crate::text::{chars_of, has_prefix, join, same_text, starts_with, text_of};

verus! {

/// A record as the host keeps it, or as a package sees it; `value` and `provenance` are JSON texts.
#[derive(Clone, Debug, PartialEq, Eq)]
pub struct MetadataRecord {
    pub namespace: String,
    pub key: String,
    pub target: Option<CommandTarget>,
    pub value: String,
    pub expires_at_ms: Option<u64>,
    pub provenance: String,
}

/// Where the host keeps a record.
#[derive(Debug)]
pub struct MetadataPlace {
    pub binding: ExtensionResourceBinding,
    pub namespace: String,
}

/// What identifies a record.
pub type RecordId = (BindingId, Seq<char>, Seq<char>, Option<TargetId>);

/// What identifies a record of a package.
pub open spec fn record_id(
    id: Seq<char>,
    generation: u64,
    owner: OwnerIdentity,
    namespace: Seq<char>,
    key: Seq<char>,
    target: Option<CommandTarget>,
) -> RecordId {
    (
        ExtensionRuntime::binding_of(id, generation, owner),
        metadata_namespace_text(id, namespace),
        key,
        target_id(target),
    )
}

/// Whether a provenance speaks of no other package and no other generation.
pub open spec fn own_provenance(id: Seq<char>, generation: u64, provenance: Json) -> bool {
    &&& text_field(provenance, "extension_id"@) matches Some(named) ==> named == id
    &&& natural_field(provenance, "generation"@) matches Some(n) ==> n == generation
}

/// Refuses a provenance that speaks of another package or another generation.
pub fn validate_metadata_provenance(id: &str, generation: u64, provenance: &Json) -> (out: Result<
    (),
    ExtensionError,
>)
    ensures
        out is Ok <==> own_provenance(id@, generation, *provenance),
        out matches Err(e) ==> e.is(
            "invalid_metadata_provenance"@,
            "metadata provenance does not match the invoking extension generation"@,
        ),
{
    let named = match provenance.get_text("extension_id") {
        Some(named) => same_text(named, id),
        None => true,
    };
    let numbered = match provenance.get_natural("generation") {
        Some(n) => n == generation,
        None => true,
    };
    if named && numbered {
        Ok(())
    } else {
        Err(
            ExtensionError::new(
                "invalid_metadata_provenance",
                "metadata provenance does not match the invoking extension generation",
            ),
        )
    }
}

/// A namespace as its package sees it: without the package's identifier in front.
pub open spec fn visible_namespace(id: Seq<char>, namespace: Seq<char>) -> Seq<char> {
    if starts_with(namespace, id + ":"@) {
        namespace.skip((id + ":"@).len() as int)
    } else {
        namespace
    }
}

/// A namespace as its package sees it.
pub fn strip_namespace(id: &str, namespace: &str) -> (out: String)
    ensures
        out@ == visible_namespace(id@, namespace@),
{
    let prefix = join(id, ":");
    if has_prefix(namespace, &prefix) {
        let chars = chars_of(namespace);
        let from = chars_of(&prefix).len();
        assert(chars@.subrange(from as int, chars@.len() as int) =~= namespace@.skip(from as int));
        text_of(&chars, from, chars.len())
    } else {
        namespace.to_owned()
    }
}

/// A package sees a namespace as it wrote it.
pub proof fn namespaces_round_trip(id: Seq<char>, namespace: Seq<char>)
    ensures
        visible_namespace(id, metadata_namespace_text(id, namespace)) == namespace,
{
    let prefix = id + ":"@;
    let full = metadata_namespace_text(id, namespace);
    assert(full =~= prefix + namespace);
    assert(full.take(prefix.len() as int) =~= prefix);
    assert(full.skip(prefix.len() as int) =~= namespace);
}

impl ExtensionRuntime {
    /// Why a record has no place with the host; `None` where it has one.
    pub open spec fn place_refusal(
        &self,
        id: Seq<char>,
        generation: u64,
        namespace: Seq<char>,
        target: Option<CommandTarget>,
    ) -> Option<(Seq<char>, Seq<char>)> {
        if self.binding_refusal(id, generation) is Some {
            self.binding_refusal(id, generation)
        } else if !own_target(id, generation, target) {
            Some(
                (
                    "invalid_binding_target"@,
                    "metadata target is not owned by this extension generation"@,
                ),
            )
        } else if !is_metadata_namespace(namespace) {
            Some(("invalid_metadata"@, "metadata namespace is invalid"@))
        } else if encode_utf8(metadata_namespace_text(id, namespace)).len()
            > self.metadata_name_limit {
            Some(("invalid_metadata"@, "metadata namespace is too long"@))
        } else {
            None
        }
    }

    /// The place of a record with the host.
    fn metadata_place(
        &self,
        id: &str,
        generation: u64,
        owner: OwnerIdentity,
        namespace: &str,
        target: &Option<CommandTarget>,
    ) -> (out: Result<MetadataPlace, ExtensionError>)
        requires
            self.wf(),
        ensures
            out is Ok <==> self.place_refusal(id@, generation, namespace@, *target) is None,
            refused_by(out, self.place_refusal(id@, generation, namespace@, *target)),
            out matches Ok(place) ==> {
                &&& place.binding.binding_id() == Self::binding_of(id@, generation, owner)
                &&& place.namespace@ == metadata_namespace_text(id@, namespace@)
                &&& self.active(id@, generation)
            },
    {
        let binding = match self.resource_binding(id, generation, owner) {
            Ok(binding) => binding,
            Err(error) => {
                return Err(error);
            },
        };
        match validate_metadata_target(id, generation, target) {
            Err(error) => {
                return Err(error);
            },
            Ok(()) => {},
        }
        match namespaced_metadata_namespace(id, namespace, self.metadata_name_limit) {
            Err(error) => Err(error),
            Ok(full) => Ok(MetadataPlace { binding, namespace: full }),
        }
    }

    /// Why a record may not be published; `None` where it may.
    pub open spec fn publish_refusal(
        &self,
        id: Seq<char>,
        generation: u64,
        scope: Seq<char>,
        namespace: Seq<char>,
        target: Option<CommandTarget>,
        provenance: Json,
    ) -> Option<(Seq<char>, Seq<char>)> {
        if self.binding_refusal(id, generation) is Some {
            self.binding_refusal(id, generation)
        } else if scope != scope_text(id, generation) {
            Some(("invalid_binding_scope"@, "extension metadata scope is host-owned"@))
        } else if !own_target(id, generation, target) {
            Some(
                (
                    "invalid_binding_target"@,
                    "metadata target is not owned by this extension generation"@,
                ),
            )
        } else if !own_provenance(id, generation, provenance) {
            Some(
                (
                    "invalid_metadata_provenance"@,
                    "metadata provenance does not match the invoking extension generation"@,
                ),
            )
        } else {
            self.place_refusal(id, generation, namespace, target)
        }
    }

    /// Checks a record before it is published, and gives its place with the host.
    pub fn publish_metadata(
        &self,
        id: &str,
        generation: u64,
        owner: OwnerIdentity,
        scope: &str,
        namespace: &str,
        target: &Option<CommandTarget>,
        provenance: &Json,
    ) -> (out: Result<MetadataPlace, ExtensionError>)
        requires
            self.wf(),
        ensures
            out is Ok <==> self.publish_refusal(
                id@,
                generation,
                scope@,
                namespace@,
                *target,
                *provenance,
            ) is None,
            refused_by(
                out,
                self.publish_refusal(id@, generation, scope@, namespace@, *target, *provenance),
            ),
            out matches Ok(place) ==> {
                &&& place.binding.binding_id() == Self::binding_of(id@, generation, owner)
                &&& place.namespace@ == metadata_namespace_text(id@, namespace@)
            },
    {
        let binding = match self.resource_binding(id, generation, owner) {
            Ok(binding) => binding,
            Err(error) => {
                return Err(error);
            },
        };
        if !same_text(scope, &binding.scope) {
            return Err(
                ExtensionError::new(
                    "invalid_binding_scope",
                    "extension metadata scope is host-owned",
                ),
            );
        }
        match validate_metadata_target(id, generation, target) {
            Err(error) => {
                return Err(error);
            },
            Ok(()) => {},
        }
        match validate_metadata_provenance(id, generation, provenance) {
            Err(error) => {
                return Err(error);
            },
            Ok(()) => {},
        }
        self.metadata_place(id, generation, owner, namespace, target)
    }

    /// Whether this host becomes another by taking down a record that was published.
    pub open spec fn publishes(
        &self,
        after: ExtensionRuntime,
        place: MetadataPlace,
        namespace: Seq<char>,
        key: Seq<char>,
        target: Option<CommandTarget>,
    ) -> bool {
        let record = (place.binding.binding_id(), place.namespace@, key, target_id(target));
        let records = after.metadata.map();
        &&& after == (ExtensionRuntime { metadata: after.metadata, ..*self })
        &&& records.contains_key(record)
        &&& records == self.metadata.map().insert(record, records[record])
        &&& records[record].resource == place.binding
        &&& records[record].namespace@ == namespace
        &&& records[record].key@ == key
        &&& records[record].target == target
    }

    /// Records that a record was published at its place.
    pub fn commit_metadata(
        &mut self,
        place: MetadataPlace,
        namespace: String,
        key: String,
        target: Option<CommandTarget>,
    )
        requires
            old(self).wf(),
        ensures
            final(self).wf(),
            old(self).publishes(*final(self), place, namespace@, key@, target),
    {
        let MetadataPlace { binding, namespace: full } = place;
        let record_key = MetadataBindingKey {
            resource: binding.copy(),
            namespace: full,
            key: key.clone(),
            target: copy_target(&target),
        };
        self.metadata.insert(
            record_key,
            MetadataBinding { resource: binding, namespace, key, target },
        );
    }

    /// Where a record that a package published is kept; `None` where it published none.
    pub fn metadata_get(
        &self,
        id: &str,
        generation: u64,
        owner: OwnerIdentity,
        namespace: &str,
        key: &str,
        target: &Option<CommandTarget>,
    ) -> (out: Result<Option<MetadataPlace>, ExtensionError>)
        requires
            self.wf(),
        ensures
            out is Ok <==> self.place_refusal(id@, generation, namespace@, *target) is None,
            refused_by(out, self.place_refusal(id@, generation, namespace@, *target)),
            out matches Ok(found) ==> {
                let known = self.metadata.map().contains_key(
                    record_id(id@, generation, owner, namespace@, key@, *target),
                );
                &&& found is Some <==> known
                &&& found matches Some(place) ==> place.binding.binding_id() == Self::binding_of(
                    id@,
                    generation,
                    owner,
                ) && place.namespace@ == metadata_namespace_text(id@, namespace@)
            },
    {
        match self.metadata_place(id, generation, owner, namespace, target) {
            Err(error) => Err(error),
            Ok(place) => {
                let record = MetadataBindingKey {
                    resource: place.binding.copy(),
                    namespace: place.namespace.clone(),
                    key: key.to_owned(),
                    target: copy_target(target),
                };
                if self.metadata.contains(&record) {
                    Ok(Some(place))
                } else {
                    Ok(None)
                }
            },
        }
    }

    /// Checks a record before it is cleared, and gives its place with the host.
    pub fn metadata_clear(
        &self,
        id: &str,
        generation: u64,
        owner: OwnerIdentity,
        namespace: &str,
        target: &Option<CommandTarget>,
    ) -> (out: Result<MetadataPlace, ExtensionError>)
        requires
            self.wf(),
        ensures
            out is Ok <==> self.place_refusal(id@, generation, namespace@, *target) is None,
            refused_by(out, self.place_refusal(id@, generation, namespace@, *target)),
            out matches Ok(place) ==> {
                &&& place.binding.binding_id() == Self::binding_of(id@, generation, owner)
                &&& place.namespace@ == metadata_namespace_text(id@, namespace@)
            },
    {
        self.metadata_place(id, generation, owner, namespace, target)
    }

    /// Records that the record at a place was cleared.
    pub fn forget_metadata(
        &mut self,
        place: MetadataPlace,
        key: &str,
        target: &Option<CommandTarget>,
    )
        requires
            old(self).wf(),
        ensures
            final(self).wf(),
            *final(self) == (ExtensionRuntime { metadata: final(self).metadata, ..*old(self) }),
            final(self).metadata.map() == old(self).metadata.map().remove(
                (place.binding.binding_id(), place.namespace@, key@, target_id(*target)),
            ),
    {
        let MetadataPlace { binding, namespace } = place;
        let record = MetadataBindingKey {
            resource: binding,
            namespace,
            key: key.to_owned(),
            target: copy_target(target),
        };
        let _ = self.metadata.remove(&record);
    }

    /// Whether the host's record is one that a holder published.
    pub open spec fn published_record(&self, binding: BindingId, record: MetadataRecord) -> bool {
        self.metadata.map().contains_key(
            (binding, record.namespace@, record.key@, target_id(record.target)),
        )
    }

    /// A holder's own records among those that the host keeps in its scope, with the namespaces as
    /// the package sees them.
    pub fn metadata_list(
        &self,
        id: &str,
        generation: u64,
        owner: OwnerIdentity,
        kept: Vec<MetadataRecord>,
    ) -> (out: Result<Vec<MetadataRecord>, ExtensionError>)
        requires
            self.wf(),
        ensures
            out is Ok <==> self.binding_refusal(id@, generation) is None,
            refused_by(out, self.binding_refusal(id@, generation)),
            out matches Ok(list) ==> {
                let binding = Self::binding_of(id@, generation, owner);
                let own = kept@.filter(|r: MetadataRecord| self.published_record(binding, r));
                &&& list@.len() == own.len()
                &&& forall|i: int|
                    0 <= i < own.len() ==> (#[trigger] list@[i]).namespace@ == visible_namespace(
                        id@,
                        own[i].namespace@,
                    ) && list@[i] == (MetadataRecord { namespace: list@[i].namespace, ..own[i] })
            },
    {
        let binding = match self.resource_binding(id, generation, owner) {
            Ok(binding) => binding,
            Err(error) => {
                return Err(error);
            },
        };
        let ghost who = Self::binding_of(id@, generation, owner);
        let ghost own = |r: MetadataRecord| self.published_record(who, r);
        let ghost all = kept@;
        let mut rest = kept;
        let mut list: Vec<MetadataRecord> = Vec::new();
        let ghost mut done: int = 0;
        proof {
            reveal(Seq::filter);
            assert(all.take(0).filter(own) =~= Seq::<MetadataRecord>::empty());
            assert(all.skip(0) =~= all);
        }
        while rest.len() > 0
            invariant
                0 <= done <= all.len(),
                rest@ == all.skip(done),
                self.wf(),
                binding.binding_id() == who,
                own == (|r: MetadataRecord| self.published_record(who, r)),
                list@.len() == all.take(done).filter(own).len(),
                forall|i: int|
                    0 <= i < list@.len() ==> (#[trigger] list@[i]).namespace@ == visible_namespace(
                        id@,
                        all.take(done).filter(own)[i].namespace@,
                    ) && list@[i] == (MetadataRecord {
                        namespace: list@[i].namespace,
                        ..all.take(done).filter(own)[i]
                    }),
            decreases rest@.len(),
        {
            let record = rest.remove(0);
            proof {
                reveal(Seq::filter);
                assert(record == all[done]);
                assert(rest@ =~= all.skip(done + 1));
                assert(all.take(done + 1).drop_last() =~= all.take(done));
                assert(all.take(done + 1).last() == all[done]);
            }
            let record_key = MetadataBindingKey {
                resource: binding.copy(),
                namespace: record.namespace.clone(),
                key: record.key.clone(),
                target: copy_target(&record.target),
            };
            if self.metadata.contains(&record_key) {
                let namespace = strip_namespace(id, &record.namespace);
                list.push(MetadataRecord { namespace, ..record });
            }
            proof {
                done = done + 1;
            }
        }
        assert(all.take(done) =~= all);
        Ok(list)
    }
}

/// A record that was published is found again under the same namespace, key and target, and every
/// other record is found as before.
pub proof fn published_is_found(
    before: ExtensionRuntime,
    after: ExtensionRuntime,
    place: MetadataPlace,
    id: Seq<char>,
    generation: u64,
    owner: OwnerIdentity,
    namespace: Seq<char>,
    key: Seq<char>,
    target: Option<CommandTarget>,
)
    requires
        place.binding.binding_id() == ExtensionRuntime::binding_of(id, generation, owner),
        place.namespace@ == metadata_namespace_text(id, namespace),
        before.publishes(after, place, namespace, key, target),
    ensures
        after.metadata.map().contains_key(
            record_id(id, generation, owner, namespace, key, target),
        ),
        forall|r: RecordId|
            r != record_id(id, generation, owner, namespace, key, target)
                ==> after.metadata.map().contains_key(r) == #[trigger] before.metadata.map().contains_key(
                r,
            ),
{
}

}
