//! Values that packages store.

use vstd::prelude::*;
use vstd::utf8::encode_utf8;
use super::command::OwnerIdentity;
use super::error::ExtensionError;
use super::ids::{is_storage_component, validate_storage_component, validate_storage_key, ExtensionGeneration};
use super::runtime::{
    key_of, refused_by, BindingId, ExtensionRuntime, StorageBindingKey, StorageRecord,
    EXTENSION_FILE_BYTES,
};
use crate::outside::{json_reading_bytes, read_json_bytes};
use crate::table::{entry_in_map, key_has_entry, TableKey};
use crate::text::{chars_of, part_at, same_text, text_of, texts};
use crate::text_set::{ascending, TextSet};

verus! {

/// How many values a package may store.
pub const EXTENSION_STORAGE_RECORD_LIMIT: usize = 256;

/// Where the values of a package lie on disk: the host's directory and the package's namespace in it.
#[derive(Debug)]
pub struct StorageFile {
    pub root: String,
    pub namespace: String,
}

/// What a look for a value gives.
#[derive(Debug)]
pub enum StorageLookup {
    /// The value, as JSON text.
    Value(String),
    /// There is none.
    Nothing,
    /// The value may be in a file.
    File(StorageFile),
}

/// What reading a stored file gave.
#[derive(Debug)]
pub enum StorageRead {
    Missing,
    Failed(String),
    Bytes(Vec<u8>),
}

/// How many of a list of entries belong to a package.
pub open spec fn records_of(entries: Seq<(StorageBindingKey, StorageRecord)>, id: Seq<char>) -> nat
    decreases entries.len(),
{
    if entries.len() == 0 {
        0
    } else {
        records_of(entries.drop_last(), id) + (if entries.last().0.resource.generation.extension_id@
            == id {
            1nat
        } else {
            0nat
        })
    }
}

impl ExtensionRuntime {
    /// Where the values of a package lie on disk; `None` where it has no namespace or the host has no
    /// directory. An error where the namespace is not a plain name.
    pub open spec fn storage_place(&self, id: Seq<char>) -> Result<
        Option<(Seq<char>, Seq<char>)>,
        (),
    > {
        match self.packages.map()[id].manifest.storage_namespace {
            None => Ok(None),
            Some(namespace) => if !is_storage_component(namespace@) {
                Err(())
            } else {
                match self.storage_root {
                    None => Ok(None),
                    Some(root) => Ok(Some((root@, namespace@))),
                }
            },
        }
    }

    /// Whether a place on disk is where the values of a package lie.
    pub open spec fn is_storage_place(&self, id: Seq<char>, file: Option<StorageFile>) -> bool {
        match self.storage_place(id) {
            Ok(None) => file is None,
            Ok(Some((root, namespace))) => file matches Some(f) && f.root@ == root && f.namespace@
                == namespace,
            Err(_) => false,
        }
    }

    /// The namespace that a package stores under, where it has one.
    fn package_storage_namespace(&self, id: &str) -> (out: Result<
        Option<StorageFile>,
        ExtensionError,
    >)
        requires
            self.wf(),
            self.packages.map().contains_key(id@),
        ensures
            match out {
                Ok(file) => self.is_storage_place(id@, file),
                Err(e) => self.storage_place(id@) is Err && e.is(
                    "invalid_storage_namespace"@,
                    "storage namespace must be a single normal path component"@,
                ),
            },
    {
        let key = key_of(id);
        match self.packages.get(&key) {
            None => Ok(None),
            Some(package) => match &package.manifest.storage_namespace {
                None => Ok(None),
                Some(namespace) => match validate_storage_component(namespace) {
                    Err(error) => Err(error),
                    Ok(()) => match &self.storage_root {
                        None => Ok(None),
                        Some(root) => Ok(
                            Some(StorageFile { root: root.clone(), namespace: namespace.clone() }),
                        ),
                    },
                },
            },
        }
    }

    /// Why a value is not open to a generation; `None` where it is.
    pub open spec fn storage_refusal(&self, id: Seq<char>, generation: u64, key: Seq<char>) -> Option<
        (Seq<char>, Seq<char>),
    > {
        if self.binding_refusal(id, generation) is Some {
            self.binding_refusal(id, generation)
        } else if !is_storage_component(key) {
            Some(
                ("invalid_storage_key"@, "storage key must be a single normal path component"@),
            )
        } else {
            None
        }
    }

    fn storage_binding(&self, id: &str, generation: u64, owner: OwnerIdentity, key: &str) -> (out:
        Result<StorageBindingKey, ExtensionError>)
        requires
            self.wf(),
        ensures
            out is Ok <==> self.storage_refusal(id@, generation, key@) is None,
            refused_by(out, self.storage_refusal(id@, generation, key@)),
            out matches Ok(record) ==> {
                &&& record.id() == (Self::binding_of(id@, generation, owner), key@)
                &&& record.resource.generation.extension_id@ == id@
                &&& self.packages.map().contains_key(id@)
            },
    {
        let binding = match self.resource_binding(id, generation, owner) {
            Ok(binding) => binding,
            Err(error) => {
                return Err(error);
            },
        };
        match validate_storage_key(key) {
            Err(error) => Err(error),
            Ok(()) => Ok(StorageBindingKey { resource: binding, key: key.to_owned() }),
        }
    }

    /// The value that a holder has in memory under a key.
    pub open spec fn held(&self, binding: BindingId, key: Seq<char>) -> Option<Seq<char>> {
        if self.storage.map().contains_key((binding, key)) {
            Some(self.storage.map()[(binding, key)].value@)
        } else {
            None
        }
    }

    /// Whether this host becomes another by storing a value.
    pub open spec fn stores(
        &self,
        after: ExtensionRuntime,
        binding: BindingId,
        key: Seq<char>,
        value: Seq<char>,
    ) -> bool {
        let records = after.storage.map();
        &&& after == (ExtensionRuntime { storage: after.storage, ..*self })
        &&& records.contains_key((binding, key))
        &&& records == self.storage.map().insert((binding, key), records[(binding, key)])
        &&& records[(binding, key)].value@ == value
    }

    /// Whether this host becomes another by forgetting a value.
    pub open spec fn forgets(
        &self,
        after: ExtensionRuntime,
        binding: BindingId,
        key: Seq<char>,
    ) -> bool {
        &&& after == (ExtensionRuntime { storage: after.storage, ..*self })
        &&& after.storage.map() == self.storage.map().remove((binding, key))
    }

    /// Looks for a value: in memory, and else where it would lie on disk.
    pub fn storage_get(&self, id: &str, generation: u64, owner: OwnerIdentity, key: &str) -> (out:
        Result<StorageLookup, ExtensionError>)
        requires
            self.wf(),
        ensures
            refused_by(out, self.storage_refusal(id@, generation, key@)),
            self.storage_refusal(id@, generation, key@) is None ==> {
                match self.held(Self::binding_of(id@, generation, owner), key@) {
                    Some(value) => out matches Ok(StorageLookup::Value(text)) && text@ == value,
                    None => match self.storage_place(id@) {
                        Ok(None) => out matches Ok(StorageLookup::Nothing),
                        Ok(Some((root, namespace))) => out matches Ok(StorageLookup::File(file))
                            && file.root@ == root && file.namespace@ == namespace,
                        Err(_) => out matches Err(e) && e.is(
                            "invalid_storage_namespace"@,
                            "storage namespace must be a single normal path component"@,
                        ),
                    },
                }
            },
    {
        let record = match self.storage_binding(id, generation, owner, key) {
            Ok(record) => record,
            Err(error) => {
                return Err(error);
            },
        };
        match self.storage.get(&record) {
            Some(stored) => {
                return Ok(StorageLookup::Value(stored.value.clone()));
            },
            None => {},
        }
        match self.package_storage_namespace(id) {
            Err(error) => Err(error),
            Ok(None) => Ok(StorageLookup::Nothing),
            Ok(Some(file)) => Ok(StorageLookup::File(file)),
        }
    }

    /// How many values a package stored, over all its generations.
    fn count_records(&self, id: &str) -> (out: usize)
        ensures
            out == records_of(self.storage.entries@, id@),
            out <= self.storage.entries@.len(),
    {
        let mut count: usize = 0;
        let mut i: usize = 0;
        while i < self.storage.entries.len()
            invariant
                i <= self.storage.entries@.len(),
                count <= i,
                count == records_of(self.storage.entries@.take(i as int), id@),
            decreases self.storage.entries@.len() - i,
        {
            assert(self.storage.entries@.take(i + 1).drop_last() =~= self.storage.entries@.take(
                i as int,
            ));
            if same_text(&self.storage.entries[i].0.resource.generation.extension_id, id) {
                count = count + 1;
            }
            i = i + 1;
        }
        assert(self.storage.entries@.take(i as int) =~= self.storage.entries@);
        count
    }

    /// Why a value may not be stored; `None` where it may.
    pub open spec fn put_refusal(
        &self,
        id: Seq<char>,
        generation: u64,
        owner: OwnerIdentity,
        key: Seq<char>,
        value: Seq<char>,
    ) -> Option<(Seq<char>, Seq<char>)> {
        if self.storage_refusal(id, generation, key) is Some {
            self.storage_refusal(id, generation, key)
        } else if encode_utf8(value).len() > EXTENSION_FILE_BYTES {
            Some(("storage_too_large"@, "storage value exceeds host limit"@))
        } else if records_of(self.storage.entries@, id) >= EXTENSION_STORAGE_RECORD_LIMIT
            && !self.storage.map().contains_key((Self::binding_of(id, generation, owner), key)) {
            Some(("storage_limit"@, "extension storage record limit reached"@))
        } else if self.storage_place(id) is Err {
            Some(
                (
                    "invalid_storage_namespace"@,
                    "storage namespace must be a single normal path component"@,
                ),
            )
        } else {
            None
        }
    }

    /// Checks a value before it is stored, and says where it is to be written on disk, if anywhere.
    /// `value` is its compact JSON text.
    pub fn storage_put(
        &self,
        id: &str,
        generation: u64,
        owner: OwnerIdentity,
        key: &str,
        value: &str,
    ) -> (out: Result<Option<StorageFile>, ExtensionError>)
        requires
            self.wf(),
        ensures
            out is Ok <==> self.put_refusal(id@, generation, owner, key@, value@) is None,
            refused_by(out, self.put_refusal(id@, generation, owner, key@, value@)),
            out matches Ok(file) ==> self.is_storage_place(id@, file),
    {
        let record = match self.storage_binding(id, generation, owner, key) {
            Ok(record) => record,
            Err(error) => {
                return Err(error);
            },
        };
        if value.as_bytes().len() > EXTENSION_FILE_BYTES {
            return Err(
                ExtensionError::new("storage_too_large", "storage value exceeds host limit"),
            );
        }
        if self.count_records(id) >= EXTENSION_STORAGE_RECORD_LIMIT && !self.storage.contains(
            &record,
        ) {
            return Err(
                ExtensionError::new("storage_limit", "extension storage record limit reached"),
            );
        }
        self.package_storage_namespace(id)
    }

    /// Keeps a value that was checked; `written` is what writing it to disk came to.
    pub fn commit_storage_put(
        &mut self,
        id: &str,
        generation: u64,
        owner: OwnerIdentity,
        key: &str,
        value: &str,
        written: Result<(), ExtensionError>,
    ) -> (out: Result<(), ExtensionError>)
        requires
            old(self).wf(),
        ensures
            final(self).wf(),
            *final(self) == (ExtensionRuntime { storage: final(self).storage, ..*old(self) }),
            refused_by(out, old(self).storage_refusal(id@, generation, key@)),
            out is Err ==> *final(self) == *old(self),
            old(self).storage_refusal(id@, generation, key@) is None ==> match written {
                Err(error) => out == Err::<(), ExtensionError>(error),
                Ok(_) => {
                    let binding = Self::binding_of(id@, generation, owner);
                    &&& out is Ok
                    &&& old(self).stores(*final(self), binding, key@, value@)
                    &&& final(self).storage.map()[(binding, key@)].generation.pair() == (
                        id@,
                        generation,
                    )
                },
            },
    {
        let record = match self.storage_binding(id, generation, owner, key) {
            Ok(record) => record,
            Err(error) => {
                return Err(error);
            },
        };
        match written {
            Err(error) => Err(error),
            Ok(()) => {
                self.storage.insert(
                    record,
                    StorageRecord {
                        generation: ExtensionGeneration::of(id, generation),
                        value: value.to_owned(),
                    },
                );
                Ok(())
            },
        }
    }

    /// Checks a value before it is deleted, and says where it lies on disk, if anywhere.
    pub fn storage_delete(&self, id: &str, generation: u64, owner: OwnerIdentity, key: &str) -> (out:
        Result<Option<StorageFile>, ExtensionError>)
        requires
            self.wf(),
        ensures
            refused_by(out, self.storage_refusal(id@, generation, key@)),
            self.storage_refusal(id@, generation, key@) is None ==> match out {
                Ok(file) => self.is_storage_place(id@, file),
                Err(e) => self.storage_place(id@) is Err && e.is(
                    "invalid_storage_namespace"@,
                    "storage namespace must be a single normal path component"@,
                ),
            },
    {
        match self.storage_binding(id, generation, owner, key) {
            Ok(_) => self.package_storage_namespace(id),
            Err(error) => Err(error),
        }
    }

    /// Forgets a value that was checked; `removed` is what removing its file came to.
    pub fn commit_storage_delete(
        &mut self,
        id: &str,
        generation: u64,
        owner: OwnerIdentity,
        key: &str,
        removed: Result<(), ExtensionError>,
    ) -> (out: Result<(), ExtensionError>)
        requires
            old(self).wf(),
        ensures
            final(self).wf(),
            *final(self) == (ExtensionRuntime { storage: final(self).storage, ..*old(self) }),
            refused_by(out, old(self).storage_refusal(id@, generation, key@)),
            out is Err ==> *final(self) == *old(self),
            old(self).storage_refusal(id@, generation, key@) is None ==> match removed {
                Err(error) => out == Err::<(), ExtensionError>(error),
                Ok(_) => out is Ok && old(self).forgets(
                    *final(self),
                    Self::binding_of(id@, generation, owner),
                    key@,
                ),
            },
    {
        let record = match self.storage_binding(id, generation, owner, key) {
            Ok(record) => record,
            Err(error) => {
                return Err(error);
            },
        };
        match removed {
            Err(error) => Err(error),
            Ok(()) => {
                let _ = self.storage.remove(&record);
                Ok(())
            },
        }
    }

    /// The keys of the values that a holder has in memory, and where others may lie on disk.
    pub fn storage_list(&self, id: &str, generation: u64, owner: OwnerIdentity) -> (out: Result<
        (TextSet, Option<StorageFile>),
        ExtensionError,
    >)
        requires
            self.wf(),
        ensures
            refused_by(out, self.binding_refusal(id@, generation)),
            self.binding_refusal(id@, generation) is None ==> match out {
                Ok((keys, file)) => {
                    &&& self.is_storage_place(id@, file)
                    &&& keys.wf()
                    &&& forall|k: Seq<char>|
                        keys.set().contains(k) <==> #[trigger] self.storage.map().contains_key(
                            (Self::binding_of(id@, generation, owner), k),
                        )
                },
                Err(e) => self.storage_place(id@) is Err && e.is(
                    "invalid_storage_namespace"@,
                    "storage namespace must be a single normal path component"@,
                ),
            },
    {
        let binding = match self.resource_binding(id, generation, owner) {
            Ok(binding) => binding,
            Err(error) => {
                return Err(error);
            },
        };
        let ghost who = Self::binding_of(id@, generation, owner);
        let mut keys = TextSet::new();
        let mut i: usize = 0;
        while i < self.storage.entries.len()
            invariant
                i <= self.storage.entries@.len(),
                self.storage.wf(),
                keys.wf(),
                binding.binding_id() == who,
                forall|k: Seq<char>| #[trigger] keys.set().contains(k)
                    ==> self.storage.map().contains_key((who, k)),
                forall|j: int|
                    0 <= j < i && (#[trigger] self.storage.entries@[j]).0.resource.binding_id()
                        == who ==> keys.set().contains(self.storage.entries@[j].0.key@),
            decreases self.storage.entries@.len() - i,
        {
            if self.storage.entries[i].0.resource.same(&binding) {
                proof {
                    entry_in_map(self.storage.entries@, i as int);
                    assert(self.storage.entries@[i as int].0.id() == (
                        who,
                        self.storage.entries@[i as int].0.key@,
                    ));
                }
                keys.insert(&self.storage.entries[i].0.key);
            }
            i = i + 1;
        }
        proof {
            assert forall|k: Seq<char>|
                keys.set().contains(k) <==> #[trigger] self.storage.map().contains_key((who, k)) by {
                if self.storage.map().contains_key((who, k)) {
                    let j = key_has_entry(self.storage.entries@, (who, k));
                    assert(self.storage.entries@[j].0.resource.binding_id() == who);
                    assert(self.storage.entries@[j].0.key@ == k);
                }
            }
        }
        match self.package_storage_namespace(id) {
            Err(error) => Err(error),
            Ok(file) => Ok((keys, file)),
        }
    }
}

/// The key of a stored file: its name without `.json`, where that is a plain name.
pub open spec fn stored_key(name: Seq<char>) -> Option<Seq<char>> {
    let n = name.len() - 5;
    if n > 0 && name.skip(n) == ".json"@ && is_storage_component(name.take(n)) {
        Some(name.take(n))
    } else {
        None
    }
}

/// The key of a stored file, where its name is that of one.
pub fn storage_key_of_file(name: &str) -> (out: Option<String>)
    ensures
        match out {
            Some(key) => stored_key(name@) == Some(key@),
            None => stored_key(name@) is None,
        },
{
    let chars = chars_of(name);
    let ending = chars_of(".json");
    proof {
        reveal_strlit(".json");
    }
    if chars.len() <= 5 {
        return None;
    }
    let n = chars.len() - 5;
    proof {
        assert(name@.skip(n as int) =~= chars@.subrange(n as int, n + 5));
        assert(chars@.subrange(0, n as int) =~= name@.take(n as int));
    }
    if !part_at(&chars, &ending, n) {
        return None;
    }
    let key = text_of(&chars, 0, n);
    if validate_storage_key(&key).is_ok() {
        Some(key)
    } else {
        None
    }
}

/// All keys of a package: those in memory and those of its files, in ascending order.
pub fn merge_storage_keys(keys: TextSet, names: &[String]) -> (out: Vec<String>)
    requires
        keys.wf(),
    ensures
        ascending(texts(out@)),
        forall|k: Seq<char>|
            texts(out@).contains(k) <==> #[trigger] keys.set().contains(k) || exists|i: int|
                0 <= i < names@.len() && stored_key((#[trigger] names@[i])@) == Some(k),
{
    let ghost first = keys.set();
    let mut all = keys;
    let mut i: usize = 0;
    while i < names.len()
        invariant
            i <= names@.len(),
            all.wf(),
            forall|k: Seq<char>|
                #[trigger] all.set().contains(k) <==> first.contains(k) || exists|j: int|
                    0 <= j < i && stored_key((#[trigger] names@[j])@) == Some(k),
        decreases names@.len() - i,
    {
        match storage_key_of_file(&names[i]) {
            Some(key) => {
                all.insert(&key);
                assert(stored_key(names@[i as int]@) == Some(key@));
            },
            None => {},
        }
        i = i + 1;
    }
    proof {
        assert forall|k: Seq<char>| texts(all.items@).contains(k) <==> #[trigger] first.contains(k)
            || exists|i: int|
            0 <= i < names@.len() && stored_key((#[trigger] names@[i])@) == Some(k) by {
            assert(all.set().contains(k) <==> texts(all.items@).contains(k));
        }
    }
    all.to_vec()
}

/// What reading a stored file comes to: the value as JSON text, nothing, or an error.
pub fn stored_value(read: StorageRead) -> (out: Result<Option<String>, ExtensionError>)
    ensures
        match read {
            StorageRead::Missing => out matches Ok(None),
            StorageRead::Failed(message) => out matches Err(e) && e.is(
                "storage_unavailable"@,
                message@,
            ),
            StorageRead::Bytes(bytes) => match json_reading_bytes(bytes@) {
                Ok(text) => out matches Ok(Some(value)) && value@ == text,
                Err(message) => out matches Err(e) && e.is("storage_invalid"@, message),
            },
        },
{
    match read {
        StorageRead::Missing => Ok(None),
        StorageRead::Failed(message) => Err(ExtensionError::new("storage_unavailable", &message)),
        StorageRead::Bytes(bytes) => match read_json_bytes(&bytes) {
            Ok(text) => Ok(Some(text)),
            Err(message) => Err(ExtensionError::new("storage_invalid", &message)),
        },
    }
}

/// A value that was stored is found again by its holder, and every other value is what it was.
pub proof fn stored_is_found(
    before: ExtensionRuntime,
    after: ExtensionRuntime,
    binding: BindingId,
    key: Seq<char>,
    value: Seq<char>,
)
    requires
        before.stores(after, binding, key, value),
    ensures
        after.held(binding, key) == Some(value),
        forall|b: BindingId, k: Seq<char>|
            (b, k) != (binding, key) ==> #[trigger] after.held(b, k) == before.held(b, k),
{
}

/// A value that was deleted is no longer found, and every other value is what it was.
pub proof fn deleted_is_gone(
    before: ExtensionRuntime,
    after: ExtensionRuntime,
    binding: BindingId,
    key: Seq<char>,
)
    requires
        before.forgets(after, binding, key),
    ensures
        after.held(binding, key) is None,
        forall|b: BindingId, k: Seq<char>|
            (b, k) != (binding, key) ==> #[trigger] after.held(b, k) == before.held(b, k),
{
}

/// The file of a stored value is named after its key, and the key is read back from the name of the
/// file; no other file is taken for one.
pub proof fn files_are_named_after_their_keys(key: Seq<char>, name: Seq<char>)
    ensures
        is_storage_component(key) ==> stored_key(key + ".json"@) == Some(key),
        stored_key(name) matches Some(found) ==> name == found + ".json"@ && is_storage_component(
            found,
        ),
{
    reveal_strlit(".json");
    let file = key + ".json"@;
    assert(file.skip(file.len() - 5) =~= ".json"@);
    assert(file.take(file.len() - 5) =~= key);
    if stored_key(name) is Some {
        let n = name.len() - 5;
        assert(name =~= name.take(n) + name.skip(n));
    }
}

/// Values of a package are kept in files exactly where its manifest names a namespace and the host has a
/// root for them; a namespace that is no plain name is refused.
pub proof fn namespaces_are_kept_in_files(host: ExtensionRuntime, id: Seq<char>)
    ensures
        ({
            let manifest = host.packages.map()[id].manifest;
            let place = host.storage_place(id);
            &&& manifest.storage_namespace is None ==> place == Ok::<
                Option<(Seq<char>, Seq<char>)>,
                (),
            >(None)
            &&& manifest.storage_namespace matches Some(namespace) ==> {
                &&& place is Err <==> !is_storage_component(namespace@)
                &&& is_storage_component(namespace@) && host.storage_root is None ==> place == Ok::<
                    Option<(Seq<char>, Seq<char>)>,
                    (),
                >(None)
                &&& is_storage_component(namespace@) && host.storage_root is Some ==> place == Ok::<
                    Option<(Seq<char>, Seq<char>)>,
                    (),
                >(Some((host.storage_root->Some_0@, namespace@)))
            }
        }),
{
}

/// The records of a package are counted one by one.
pub proof fn records_are_counted(
    entries: Seq<(StorageBindingKey, StorageRecord)>,
    entry: (StorageBindingKey, StorageRecord),
    id: Seq<char>,
)
    ensures
        records_of(entries.push(entry), id) == records_of(entries, id) + (
        if entry.0.resource.generation.extension_id@ == id {
            1nat
        } else {
            0nat
        }),
        records_of(entries, id) <= entries.len(),
    decreases entries.len(),
{
    assert(entries.push(entry).drop_last() =~= entries);
    if entries.len() > 0 {
        records_are_counted(entries.drop_last(), entry, id);
    }
}

}
