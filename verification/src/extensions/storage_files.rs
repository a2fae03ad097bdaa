//! Where stored values lie on disk, and how a file is replaced in one step.

use vstd::prelude::*;
use super::error::ExtensionError;
use super::ids::{
    is_package_id, is_storage_component, validate_storage_component, validate_storage_key,
    ExtensionPackageId,
};
use super::runtime::refused_by;
use crate::path::{is_within, join_paths, lies_within, path_join, plain_name_stays_within};
use crate::text::{decimal, decimal_text, join};

verus! {

/// Why a package has no directory for a namespace; `None` where it has one.
pub open spec fn directory_refusal(id: Seq<char>, namespace: Seq<char>) -> Option<
    (Seq<char>, Seq<char>),
> {
    if !is_package_id(id) {
        Some(("invalid_extension_id"@, "invalid extension package id"@))
    } else if !is_storage_component(namespace) {
        Some(
            (
                "invalid_storage_namespace"@,
                "storage namespace must be a single normal path component"@,
            ),
        )
    } else {
        None
    }
}

/// The directory of a package's namespace, beneath the directory for stored values.
pub fn storage_directory(root: &str, id: &str, namespace: &str) -> (out: Result<String, ExtensionError>)
    ensures
        out is Ok <==> directory_refusal(id@, namespace@) is None,
        refused_by(out, directory_refusal(id@, namespace@)),
        out matches Ok(path) ==> path@ == path_join(path_join(root@, id@), namespace@),
{
    let package = match ExtensionPackageId::new(id) {
        Ok(package) => package,
        Err(error) => {
            return Err(error);
        },
    };
    match validate_storage_component(namespace) {
        Ok(()) => {},
        Err(error) => {
            return Err(error);
        },
    }
    let directory = join_paths(root, package.as_ref());
    Ok(join_paths(&directory, namespace))
}

/// Why a directory is not used, once it was made and resolved; `None` where it is. `links` says of
/// every step from the root to the directory whether it is a symbolic link.
pub open spec fn placement_refusal(
    root: Seq<char>,
    directory: Seq<char>,
    links: Seq<bool>,
) -> Option<(Seq<char>, Seq<char>)> {
    if !lies_within(directory, root) {
        Some(("storage_unavailable"@, "storage path escapes the extension storage root"@))
    } else if links.contains(true) {
        Some(("storage_unavailable"@, "symlink traversal is denied for extension storage"@))
    } else {
        None
    }
}

fn any_link(links: &[bool]) -> (out: bool)
    ensures
        out == links@.contains(true),
{
    let mut i: usize = 0;
    while i < links.len()
        invariant
            i <= links@.len(),
            forall|j: int| 0 <= j < i ==> !(#[trigger] links@[j]),
        decreases links@.len() - i,
    {
        if links[i] {
            assert(links@[i as int]);
            return true;
        }
        i = i + 1;
    }
    false
}

/// Checks the resolved directory of a namespace: it lies beneath the resolved root, and no step to it
/// is a symbolic link.
pub fn check_storage_directory(root: &str, directory: &str, links: &[bool]) -> (out: Result<
    (),
    ExtensionError,
>)
    ensures
        out is Ok <==> placement_refusal(root@, directory@, links@) is None,
        refused_by(out, placement_refusal(root@, directory@, links@)),
{
    if !is_within(directory, root) {
        return Err(
            ExtensionError::new(
                "storage_unavailable",
                "storage path escapes the extension storage root",
            ),
        );
    }
    if any_link(links) {
        return Err(
            ExtensionError::new(
                "storage_unavailable",
                "symlink traversal is denied for extension storage",
            ),
        );
    }
    Ok(())
}

/// Why a value has no file; `None` where it has one.
pub open spec fn file_refusal(key: Seq<char>, is_link: bool) -> Option<(Seq<char>, Seq<char>)> {
    if !is_storage_component(key) {
        Some(("invalid_storage_key"@, "storage key must be a single normal path component"@))
    } else if is_link {
        Some(("storage_unavailable"@, "symlink traversal is denied for extension storage"@))
    } else {
        None
    }
}

/// The file of a stored value. `is_link` says whether a symbolic link stands there.
pub fn storage_path(directory: &str, key: &str, is_link: bool) -> (out: Result<String, ExtensionError>)
    ensures
        out is Ok <==> file_refusal(key@, is_link) is None,
        refused_by(out, file_refusal(key@, is_link)),
        out matches Ok(path) ==> path@ == path_join(directory@, key@ + ".json"@),
{
    match validate_storage_key(key) {
        Ok(()) => {},
        Err(error) => {
            return Err(error);
        },
    }
    if is_link {
        return Err(
            ExtensionError::new(
                "storage_unavailable",
                "symlink traversal is denied for extension storage",
            ),
        );
    }
    let name = join(key, ".json");
    Ok(join_paths(directory, &name))
}

/// The name of the file in which new content is gathered.
pub open spec fn gathering_name(file_name: Option<Seq<char>>, process: u32) -> Seq<char> {
    "."@ + (match file_name {
        Some(name) => name,
        None => "file"@,
    }) + "."@ + decimal(process as nat) + ".tmp"@
}

/// The name of the file in which new content is gathered.
pub fn temporary_file_name(file_name: Option<&str>, process: u32) -> (out: String)
    ensures
        out@ == gathering_name(
            match file_name {
                Some(name) => Some(name@),
                None => None,
            },
            process,
        ),
{
    let mut out = match file_name {
        Some(name) => join(".", name),
        None => join(".", "file"),
    };
    out.append(".");
    let digits = decimal_text(process as u64);
    out.append(&digits);
    out.append(".tmp");
    out
}

/// A step of replacing a file.
#[derive(Clone, Copy, Debug, PartialEq, Eq, Structural)]
pub enum WriteStep {
    /// Make the directory.
    MakeDirectory,
    /// Create the gathering file, which must not be there.
    Create,
    /// Write the content to it.
    Write,
    /// Put the content on disk.
    Sync,
    /// Give it the name of the file.
    Rename,
    /// Put the new name on disk.
    SyncDirectory,
    /// Remove the gathering file.
    Remove,
    Done,
    Failed,
}

/// A file that is being replaced.
#[derive(Debug)]
pub struct AtomicWrite {
    pub step: WriteStep,
    pub error: Option<ExtensionError>,
}

impl AtomicWrite {
    /// The error is there once a step failed.
    pub open spec fn wf(&self) -> bool {
        self.error is Some <==> self.step == WriteStep::Remove || self.step == WriteStep::Failed
    }

    /// Whether nothing is left to do.
    pub open spec fn ended(&self) -> bool {
        self.step == WriteStep::Done || self.step == WriteStep::Failed
    }

    /// How many steps are left at most.
    pub open spec fn left(&self) -> nat {
        match self.step {
            WriteStep::MakeDirectory => 7,
            WriteStep::Create => 6,
            WriteStep::Write => 5,
            WriteStep::Sync => 4,
            WriteStep::Rename => 3,
            WriteStep::SyncDirectory => 2,
            WriteStep::Remove => 1,
            WriteStep::Done => 0,
            WriteStep::Failed => 0,
        }
    }

    /// Begins to replace a file. A file without a directory around it cannot be replaced.
    pub fn atomic_write(has_parent: bool) -> (out: Self)
        ensures
            out.wf(),
            has_parent ==> out.step == WriteStep::MakeDirectory,
            !has_parent ==> out.step == WriteStep::Failed && (out.error matches Some(e) && e.is(
                "storage_unavailable"@,
                "target has no parent directory"@,
            )),
    {
        if has_parent {
            AtomicWrite { step: WriteStep::MakeDirectory, error: None }
        } else {
            AtomicWrite {
                step: WriteStep::Failed,
                error: Some(
                    ExtensionError::new("storage_unavailable", "target has no parent directory"),
                ),
            }
        }
    }

    /// The step after this one, by what came of it. Whatever goes wrong from the creation of the
    /// gathering file on, that file is removed.
    pub open spec fn next_step(self, ok: bool) -> WriteStep {
        match self.step {
            WriteStep::MakeDirectory => if ok {
                WriteStep::Create
            } else {
                WriteStep::Failed
            },
            WriteStep::Create => if ok {
                WriteStep::Write
            } else {
                WriteStep::Remove
            },
            WriteStep::Write => if ok {
                WriteStep::Sync
            } else {
                WriteStep::Remove
            },
            WriteStep::Sync => if ok {
                WriteStep::Rename
            } else {
                WriteStep::Remove
            },
            WriteStep::Rename => if ok {
                WriteStep::SyncDirectory
            } else {
                WriteStep::Remove
            },
            WriteStep::SyncDirectory => if ok {
                WriteStep::Done
            } else {
                WriteStep::Remove
            },
            WriteStep::Remove => WriteStep::Failed,
            WriteStep::Done => WriteStep::Done,
            WriteStep::Failed => WriteStep::Failed,
        }
    }

    /// Takes what came of a step.
    pub fn advance(&mut self, result: Result<(), String>)
        requires
            old(self).wf(),
        ensures
            final(self).wf(),
            final(self).step == old(self).next_step(result is Ok),
            old(self).error is Some ==> final(self).error == old(self).error,
            old(self).error is None && final(self).error is Some ==> (result matches Err(message)
                && final(self).error.unwrap().is("storage_unavailable"@, message@)),
            !old(self).ended() ==> final(self).left() < old(self).left(),
    {
        match result {
            Ok(()) => {
                self.step =
                match self.step {
                    WriteStep::MakeDirectory => WriteStep::Create,
                    WriteStep::Create => WriteStep::Write,
                    WriteStep::Write => WriteStep::Sync,
                    WriteStep::Sync => WriteStep::Rename,
                    WriteStep::Rename => WriteStep::SyncDirectory,
                    WriteStep::SyncDirectory => WriteStep::Done,
                    WriteStep::Remove => WriteStep::Failed,
                    WriteStep::Done => WriteStep::Done,
                    WriteStep::Failed => WriteStep::Failed,
                };
            },
            Err(message) => {
                match self.step {
                    WriteStep::Done => {},
                    WriteStep::Failed => {},
                    WriteStep::Remove => {
                        self.step = WriteStep::Failed;
                    },
                    WriteStep::MakeDirectory => {
                        self.error = Some(ExtensionError::new("storage_unavailable", &message));
                        self.step = WriteStep::Failed;
                    },
                    _ => {
                        self.error = Some(ExtensionError::new("storage_unavailable", &message));
                        self.step = WriteStep::Remove;
                    },
                }
            },
        }
    }

    /// What became of the file.
    pub fn finish(self) -> (out: Result<(), ExtensionError>)
        requires
            self.wf(),
        ensures
            match self.error {
                Some(error) => out == Err::<(), ExtensionError>(error),
                None => out is Ok,
            },
    {
        match self.error {
            Some(error) => Err(error),
            None => Ok(()),
        }
    }
}

/// The file of a stored value lies beneath the directory for stored values.
pub proof fn values_stay_in_place(root: Seq<char>, directory: Seq<char>, links: Seq<bool>, key: Seq<char>)
    requires
        placement_refusal(root, directory, links) is None,
        file_refusal(key, false) is None,
    ensures
        lies_within(path_join(directory, key + ".json"@), root),
{
    let name = key + ".json"@;
    reveal_strlit(".json");
    reveal_strlit(".");
    assert(!name.contains('/')) by {
        if name.contains('/') {
            let i = choose|i: int| 0 <= i < name.len() && name[i] == '/';
            if i < key.len() {
                assert(key.contains(key[i]));
            }
        }
    }
    plain_name_stays_within(root, directory, name);
}

/// A file is replaced whole or not at all: its name changes hands only after the new content is on
/// disk, and a write that fails before leaves the file as it was.
pub proof fn rename_follows_sync(write: AtomicWrite, ok: bool)
    requires
        write.wf(),
    ensures
        write.next_step(ok) == WriteStep::Rename ==> write.step == WriteStep::Sync && ok,
        write.next_step(ok) == WriteStep::Done ==> write.step == WriteStep::Done || (write.step
            == WriteStep::SyncDirectory && ok),
{
}

/// Values are kept only for packages, under a plain name in a plain directory beneath the root, where no
/// link leads elsewhere; there they are.
pub proof fn values_are_kept_in_plain_places(
    id: Seq<char>,
    namespace: Seq<char>,
    key: Seq<char>,
    root: Seq<char>,
    directory: Seq<char>,
    links: Seq<bool>,
    is_link: bool,
)
    ensures
        directory_refusal(id, namespace) is None <==> is_package_id(id) && is_storage_component(
            namespace,
        ),
        placement_refusal(root, directory, links) is None <==> lies_within(directory, root) && (
        forall|i: int| 0 <= i < links.len() ==> !#[trigger] links[i]),
        file_refusal(key, is_link) is None <==> is_storage_component(key) && !is_link,
{
    if links.contains(true) {
        let i = choose|i: int| 0 <= i < links.len() && links[i] == true;
        assert(links[i]);
    }
    assert forall|i: int| 0 <= i < links.len() && #[trigger] links[i] implies links.contains(
        true,
    ) by {
        assert(links[i] == true);
    }
}

/// A value is written in order: the directory, the file, its bytes, to the disk, into place, and the
/// directory to the disk. What fails after the directory is removed again, and fails.
pub proof fn writing_goes_in_order(write: AtomicWrite, ok: bool)
    ensures
        ({
            let then = write.next_step(ok);
            &&& write.step == WriteStep::MakeDirectory ==> then == if ok {
                WriteStep::Create
            } else {
                WriteStep::Failed
            }
            &&& ok && write.step == WriteStep::Create ==> then == WriteStep::Write
            &&& ok && write.step == WriteStep::Write ==> then == WriteStep::Sync
            &&& ok && write.step == WriteStep::Sync ==> then == WriteStep::Rename
            &&& ok && write.step == WriteStep::Rename ==> then == WriteStep::SyncDirectory
            &&& ok && write.step == WriteStep::SyncDirectory ==> then == WriteStep::Done
            &&& !ok && (write.step == WriteStep::Create || write.step == WriteStep::Write
                || write.step == WriteStep::Sync || write.step == WriteStep::Rename || write.step
                == WriteStep::SyncDirectory) ==> then == WriteStep::Remove
            &&& write.step == WriteStep::Remove ==> then == WriteStep::Failed
            &&& then == WriteStep::Done ==> write.step == WriteStep::Done || write.step
                == WriteStep::SyncDirectory
        }),
{
}

/// While it is gathered, a file has a hidden name of its own beside its real one.
pub proof fn gathering_is_hidden(name: Seq<char>, process: u32)
    ensures
        gathering_name(Some(name), process) == "."@ + name + "."@ + decimal(process as nat)
            + ".tmp"@,
        gathering_name(None, process) == gathering_name(Some("file"@), process),
        gathering_name(Some(name), process)[0] == '.',
        gathering_name(Some(name), process) != name,
{
    reveal_strlit(".");
    assert(gathering_name(Some(name), process)[0] == "."@[0]);
}

}
