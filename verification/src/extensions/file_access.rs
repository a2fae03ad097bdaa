//! Which files an extension may use: those beneath the directories that the host configured.

use vstd::prelude::*;
use super::error::ExtensionError;
use super::file_removal::{read_open_file, FileStat, ReadFailure};
use super::runtime::{ExtensionRuntime, EXTENSION_FILE_BYTES};
use crate::path::{beneath, path_parts};
use crate::text::{chars_of, same_text, split, texts};

verus! {

/// Why a path is refused; `None` where it is not.
pub open spec fn path_refusal(path: Seq<char>) -> Option<Seq<char>> {
    if path.len() == 0 || path[0] != '/' {
        Some("extension file paths must be absolute"@)
    } else if path_parts(path).contains(".."@) {
        Some("parent traversal is not allowed"@)
    } else {
        None
    }
}

/// The names along an absolute path that never goes up.
pub fn normalize_file_path(path: &str) -> (out: Result<Vec<String>, &'static str>)
    ensures
        match out {
            Ok(parts) => path_refusal(path@) is None && texts(parts@) == path_parts(path@),
            Err(message) => path_refusal(path@) == Some(message@),
        },
{
    let chars = chars_of(path);
    if chars.len() == 0 || chars[0] != '/' {
        return Err("extension file paths must be absolute");
    }
    let all = split(path, '/');
    let ghost names = texts(all@);
    let ghost keep = |p: Seq<char>| p.len() > 0 && p != "."@;
    let mut parts: Vec<String> = Vec::new();
    let mut up = false;
    let mut i: usize = 0;
    proof {
        reveal(Seq::filter);
        assert(names.take(0).filter(keep) =~= Seq::<Seq<char>>::empty());
        assert(texts(parts@) =~= Seq::<Seq<char>>::empty());
    }
    while i < all.len()
        invariant
            i <= all@.len(),
            names == texts(all@),
            keep == (|p: Seq<char>| p.len() > 0 && p != "."@),
            texts(parts@) == names.take(i as int).filter(keep),
            up == texts(parts@).contains(".."@),
        decreases all@.len() - i,
    {
        let ghost before = parts@;
        proof {
            reveal(Seq::filter);
            assert(names[i as int] == all@[i as int]@);
            assert(names.take(i + 1).drop_last() =~= names.take(i as int));
            assert(names.take(i + 1).last() == names[i as int]);
        }
        let part = &all[i];
        if !part.as_str().is_empty() && !same_text(part, ".") {
            parts.push(part.clone());
            proof {
                assert(texts(parts@) =~= texts(before).push(part@));
                if part@ == ".."@ {
                    assert(texts(parts@)[before.len() as int] == ".."@);
                }
                if texts(before).contains(".."@) {
                    let j = choose|j: int|
                        0 <= j < texts(before).len() && texts(before)[j] == ".."@;
                    assert(texts(parts@)[j] == ".."@);
                }
                if texts(parts@).contains(".."@) && part@ != ".."@ {
                    let j = choose|j: int|
                        0 <= j < texts(parts@).len() && texts(parts@)[j] == ".."@;
                    assert(texts(before)[j] == ".."@);
                }
            }
            if same_text(part, "..") {
                up = true;
            }
        }
        i = i + 1;
    }
    assert(names.take(i as int) =~= names);
    if up {
        return Err("parent traversal is not allowed");
    }
    Ok(parts)
}

fn strip_root(path: &Vec<String>, root: &Vec<String>) -> (out: Option<Vec<String>>)
    ensures
        match out {
            Some(rest) => beneath(texts(path@), texts(root@)) == Some(texts(rest@)),
            None => beneath(texts(path@), texts(root@)) is None,
        },
{
    if root.len() > path.len() {
        return None;
    }
    let mut i: usize = 0;
    while i < root.len()
        invariant
            i <= root@.len() <= path@.len(),
            forall|j: int| 0 <= j < i ==> texts(path@)[j] == texts(root@)[j],
        decreases root@.len() - i,
    {
        if !same_text(&path[i], &root[i]) {
            proof {
                assert(texts(path@)[i as int] != texts(root@)[i as int]);
                assert(texts(path@).take(root@.len() as int)[i as int] == texts(path@)[i as int]);
            }
            return None;
        }
        i = i + 1;
    }
    assert(texts(path@).take(root@.len() as int) =~= texts(root@));
    let mut rest: Vec<String> = Vec::new();
    assert(texts(rest@) =~= texts(path@).subrange(root@.len() as int, i as int));
    while i < path.len()
        invariant
            root@.len() <= i <= path@.len(),
            texts(rest@) == texts(path@).subrange(root@.len() as int, i as int),
        decreases path@.len() - i,
    {
        let ghost before = rest@;
        rest.push(path[i].clone());
        i = i + 1;
        proof {
            assert(texts(rest@) =~= texts(before).push(texts(path@)[i - 1]));
            assert(texts(path@).subrange(root@.len() as int, i as int) =~= texts(path@).subrange(
                root@.len() as int,
                i - 1,
            ).push(texts(path@)[i - 1]));
        }
    }
    assert(texts(rest@) =~= texts(path@).skip(root@.len() as int));
    Some(rest)
}

/// A file beneath a configured directory: which one, and the names from there on.
#[derive(Debug)]
pub struct FileCandidate {
    pub root: usize,
    pub relative: Vec<String>,
}

/// The names from a configured directory to a file, where it lies beneath it: beneath the directory
/// as it is configured, or beneath what that resolves to.
pub open spec fn relative_to(path: Seq<char>, root: Seq<char>, resolved: Option<Seq<char>>) -> Option<
    Seq<Seq<char>>,
> {
    let target = path_parts(path);
    if path_refusal(root) is Some {
        None
    } else if beneath(target, path_parts(root)) is Some {
        beneath(target, path_parts(root))
    } else {
        match resolved {
            Some(actual) => if path_refusal(actual) is None {
                beneath(target, path_parts(actual))
            } else {
                None
            },
            None => None,
        }
    }
}

/// Whether a file may lie beneath the directory with number `i`.
pub open spec fn is_candidate(
    path: Seq<char>,
    roots: Seq<String>,
    resolved: Seq<Option<String>>,
    i: int,
) -> bool {
    relative_to(
        path,
        roots[i]@,
        crate::text::text_opt(resolved[i]),
    ) matches Some(rest) && rest.len() > 0
}

fn relative_names(target: &Vec<String>, path: &str, root: &str, resolved: &Option<String>) -> (out:
    Option<Vec<String>>)
    requires
        texts(target@) == path_parts(path@),
    ensures
        match out {
            Some(rest) => relative_to(path@, root@, crate::text::text_opt(*resolved)) == Some(
                texts(rest@),
            ),
            None => relative_to(path@, root@, crate::text::text_opt(*resolved)) is None,
        },
{
    let parts = match normalize_file_path(root) {
        Ok(parts) => parts,
        Err(_) => {
            return None;
        },
    };
    match strip_root(target, &parts) {
        Some(rest) => Some(rest),
        None => match resolved {
            None => None,
            Some(actual) => match normalize_file_path(actual) {
                Ok(parts) => strip_root(target, &parts),
                Err(_) => None,
            },
        },
    }
}

impl ExtensionRuntime {
    /// The configured directories that a file may lie beneath, in their order, with the names from
    /// there on. `resolved` gives what each configured directory resolves to, where it does. The
    /// caller uses the first directory that it can open.
    pub fn ensure_file_access(&self, path: &str, resolved: &Vec<Option<String>>) -> (out: Result<
        Vec<FileCandidate>,
        ExtensionError,
    >)
        requires
            resolved@.len() == self.file_roots@.len(),
        ensures
            path_refusal(path@) matches Some(message) ==> (out matches Err(e) && e.is(
                "file_denied"@,
                message,
            )),
            path_refusal(path@) is None && self.file_roots@.len() == 0 ==> (out matches Err(e)
                && e.is("file_denied"@, "no extension file root is configured"@)),
            path_refusal(path@) is None && self.file_roots@.len() > 0 ==> (out matches Ok(list) && {
                &&& forall|k: int|
                    0 <= k < list@.len() ==> (#[trigger] list@[k]).root < self.file_roots@.len()
                        && is_candidate(path@, self.file_roots@, resolved@, list@[k].root as int)
                        && relative_to(
                        path@,
                        self.file_roots@[list@[k].root as int]@,
                        crate::text::text_opt(resolved@[list@[k].root as int]),
                    ) == Some(texts(list@[k].relative@))
                &&& forall|a: int, b: int|
                    0 <= a < b < list@.len() ==> (#[trigger] list@[a]).root < (
                    #[trigger] list@[b]).root
                &&& forall|i: int|
                    0 <= i < self.file_roots@.len() && #[trigger] is_candidate(
                        path@,
                        self.file_roots@,
                        resolved@,
                        i,
                    ) ==> exists|k: int| 0 <= k < list@.len() && (#[trigger] list@[k]).root == i
            }),
    {
        let target = match normalize_file_path(path) {
            Ok(target) => target,
            Err(message) => {
                return Err(ExtensionError::new("file_denied", message));
            },
        };
        if self.file_roots.len() == 0 {
            return Err(ExtensionError::new("file_denied", "no extension file root is configured"));
        }
        let mut list: Vec<FileCandidate> = Vec::new();
        let mut i: usize = 0;
        while i < self.file_roots.len()
            invariant
                i <= self.file_roots@.len(),
                resolved@.len() == self.file_roots@.len(),
                texts(target@) == path_parts(path@),
                forall|k: int|
                    0 <= k < list@.len() ==> (#[trigger] list@[k]).root < i && is_candidate(
                        path@,
                        self.file_roots@,
                        resolved@,
                        list@[k].root as int,
                    ) && relative_to(
                        path@,
                        self.file_roots@[list@[k].root as int]@,
                        crate::text::text_opt(resolved@[list@[k].root as int]),
                    ) == Some(texts(list@[k].relative@)),
                forall|a: int, b: int|
                    0 <= a < b < list@.len() ==> (#[trigger] list@[a]).root < (
                    #[trigger] list@[b]).root,
                forall|j: int|
                    0 <= j < i && #[trigger] is_candidate(
                        path@,
                        self.file_roots@,
                        resolved@,
                        j,
                    ) ==> exists|k: int| 0 <= k < list@.len() && (#[trigger] list@[k]).root == j,
            decreases self.file_roots@.len() - i,
        {
            match relative_names(&target, path, &self.file_roots[i], &resolved[i]) {
                Some(relative) if relative.len() > 0 => {
                    let ghost before = list@;
                    list.push(FileCandidate { root: i, relative });
                    proof {
                        assert(list@[before.len() as int].root == i);
                        assert forall|j: int| 0 <= j < i && #[trigger] is_candidate(
                            path@,
                            self.file_roots@,
                            resolved@,
                            j,
                        ) implies exists|k: int| 0 <= k < list@.len() && (
                        #[trigger] list@[k]).root == j by {
                            let k = choose|k: int|
                                0 <= k < before.len() && (#[trigger] before[k]).root == j;
                            assert(list@[k].root == j);
                        }
                    }
                },
                Some(relative) => {
                    assert(texts(relative@).len() == 0);
                },
                None => {},
            }
            i = i + 1;
        }
        Ok(list)
    }
}

/// The error of a file that lies beneath no configured directory that can be opened.
pub fn file_not_accessible() -> (out: ExtensionError)
    ensures
        out.is("file_denied"@, "path is not beneath an accessible extension file root"@),
{
    ExtensionError::new("file_denied", "path is not beneath an accessible extension file root")
}

/// A path that goes up is never accepted, and an accepted file lies beneath a configured directory.
pub proof fn access_stays_beneath_a_root(
    path: Seq<char>,
    root: Seq<char>,
    resolved: Option<Seq<char>>,
)
    requires
        path_refusal(path) is None,
        relative_to(path, root, resolved) is Some,
    ensures
        !path_parts(path).contains(".."@),
        path_parts(path) == path_parts(root) + relative_to(path, root, resolved)->Some_0 || (resolved
            is Some && path_parts(path) == path_parts(resolved->Some_0) + relative_to(
            path,
            root,
            resolved,
        )->Some_0),
{
    let target = path_parts(path);
    let near = path_parts(root);
    if beneath(target, near) is Some {
        assert(target =~= near + target.skip(near.len() as int));
    } else {
        let actual = path_parts(resolved->Some_0);
        assert(target =~= actual + target.skip(actual.len() as int));
    }
}

/// The directories along a path and the name at its end, or what is wrong with the path.
pub open spec fn components_of(relative: Seq<Seq<char>>) -> Result<
    (Seq<Seq<char>>, Seq<char>),
    Seq<char>,
> {
    if relative.contains(".."@) || relative.contains("."@) || relative.contains(Seq::empty()) {
        Err("extension file path contains a non-normal component"@)
    } else if relative.len() == 0 {
        Err("extension file path has no file name"@)
    } else {
        Ok((relative.drop_last(), relative.last()))
    }
}

/// The directories along a path and the name at its end: the directories are opened one after the
/// other.
pub fn file_components(relative: Vec<String>) -> (out: Result<(Vec<String>, String), &'static str>)
    ensures
        match components_of(texts(relative@)) {
            Ok((directories, name)) => out matches Ok(parts) && texts(parts.0@) == directories
                && parts.1@ == name,
            Err(message) => out matches Err(m) && m@ == message,
        },
{
    let mut parts = relative;
    let ghost all = texts(parts@);
    let mut i: usize = 0;
    while i < parts.len()
        invariant
            i <= parts@.len(),
            all == texts(parts@),
            all == texts(relative@),
            forall|j: int|
                0 <= j < i ==> #[trigger] all[j] != ".."@ && all[j] != "."@ && all[j].len() > 0,
        decreases parts@.len() - i,
    {
        assert(all[i as int] == parts@[i as int]@);
        if same_text(&parts[i], "..") || same_text(&parts[i], ".") || parts[i].as_str().is_empty() {
            proof {
                if all[i as int].len() == 0 {
                    assert(all[i as int] =~= Seq::<char>::empty());
                }
                assert(all.contains(all[i as int]));
            }
            return Err("extension file path contains a non-normal component");
        }
        i = i + 1;
    }
    proof {
        assert(all.len() == parts@.len());
        assert(!all.contains(Seq::<char>::empty()));
    }
    match parts.pop() {
        None => Err("extension file path has no file name"),
        Some(name) => {
            assert(texts(parts@) =~= all.drop_last());
            Ok((parts, name))
        },
    }
}

/// What opening a file came to.
#[derive(Debug)]
pub enum Opened {
    Done,
    /// There is no such file; the text is that of the error.
    Missing(String),
    Failed(String),
}

/// Whether a file is there. A directory on the way that cannot be opened is an error, even where it is
/// not there.
pub fn file_exists(parent: Result<(), String>, file: Opened) -> (out: Result<bool, ExtensionError>)
    ensures
        match parent {
            Err(message) => out matches Err(e) && e.is("file_stat_failed"@, message@),
            Ok(_) => match file {
                Opened::Done => out matches Ok(there) && there,
                Opened::Missing(_) => out matches Ok(there) && !there,
                Opened::Failed(message) => out matches Err(e) && e.is("file_stat_failed"@, message@),
            },
        },
{
    match parent {
        Err(message) => Err(ExtensionError::new("file_stat_failed", &message)),
        Ok(()) => match file {
            Opened::Done => Ok(true),
            Opened::Missing(_) => Ok(false),
            Opened::Failed(message) => Err(ExtensionError::new("file_stat_failed", &message)),
        },
    }
}

/// Why a file could not be opened, with the given code.
pub open spec fn opening_failure(parent: Result<(), String>, file: Opened) -> Option<Seq<char>> {
    match parent {
        Err(message) => Some(message@),
        Ok(_) => match file {
            Opened::Done => None,
            Opened::Missing(message) => Some(message@),
            Opened::Failed(message) => Some(message@),
        },
    }
}

fn opened(code: &str, parent: Result<(), String>, file: Opened) -> (out: Result<(), ExtensionError>)
    ensures
        match opening_failure(parent, file) {
            None => out is Ok,
            Some(message) => out matches Err(e) && e.is(code@, message),
        },
{
    match parent {
        Err(message) => Err(ExtensionError::new(code, &message)),
        Ok(()) => match file {
            Opened::Done => Ok(()),
            Opened::Missing(message) => Err(ExtensionError::new(code, &message)),
            Opened::Failed(message) => Err(ExtensionError::new(code, &message)),
        },
    }
}

/// What was read of a file, once it was opened: its state and up to one byte more than the host
/// reads, or the text of an error of the system.
pub type FileReading = Result<(FileStat, Vec<u8>), String>;

/// The content of a file. A file that is too large has an error of its own.
pub fn file_read(parent: Result<(), String>, file: Opened, reading: FileReading) -> (out: Result<
    Vec<u8>,
    ExtensionError,
>)
    ensures
        match opening_failure(parent, file) {
            Some(message) => out matches Err(e) && e.is("file_read_failed"@, message),
            None => match reading {
                Err(message) => out matches Err(e) && e.is("file_read_failed"@, message@),
                Ok((stat, bytes)) => if !stat.is_file {
                    out matches Err(e) && e.is(
                        "file_read_failed"@,
                        "extension file target is not a regular file"@,
                    )
                } else if bytes@.len() > EXTENSION_FILE_BYTES {
                    out matches Err(e) && e.is(
                        "file_too_large"@,
                        "file exceeds host read limit"@,
                    )
                } else {
                    out matches Ok(content) && content == bytes
                },
            },
        },
{
    match opened("file_read_failed", parent, file) {
        Err(error) => Err(error),
        Ok(()) => match reading {
            Err(message) => Err(ExtensionError::new("file_read_failed", &message)),
            Ok((stat, bytes)) => match read_open_file(&stat, bytes) {
                Ok(content) => Ok(content),
                Err(failure) => match failure {
                    ReadFailure::TooLarge => Err(
                        ExtensionError::new("file_too_large", failure.message()),
                    ),
                    _ => Err(ExtensionError::new("file_read_failed", failure.message())),
                },
            },
        },
    }
}

/// What the system tells of a file.
pub fn file_stat(parent: Result<(), String>, file: Opened, stat: Result<FileStat, String>) -> (out:
    Result<FileStat, ExtensionError>)
    ensures
        match opening_failure(parent, file) {
            Some(message) => out matches Err(e) && e.is("file_stat_failed"@, message),
            None => match stat {
                Err(message) => out matches Err(e) && e.is("file_stat_failed"@, message@),
                Ok(told) => out == Ok::<FileStat, ExtensionError>(told),
            },
        },
{
    match opened("file_stat_failed", parent, file) {
        Err(error) => Err(error),
        Ok(()) => match stat {
            Err(message) => Err(ExtensionError::new("file_stat_failed", &message)),
            Ok(told) => Ok(told),
        },
    }
}

/// Files are offered on some systems only.
pub fn unsupported_file_api_error() -> (out: ExtensionError)
    ensures
        out.is("file_unsupported"@, "extension file access is unavailable on this platform"@),
{
    ExtensionError::new("file_unsupported", "extension file access is unavailable on this platform")
}

/// A path beneath a root is opened by the directories on its way and its name, which together are the
/// path; it is refused exactly where there is no name or one of them leads elsewhere.
pub proof fn components_are_the_path(relative: Seq<Seq<char>>)
    ensures
        match components_of(relative) {
            Ok((directories, name)) => {
                &&& directories.push(name) == relative
                &&& forall|i: int|
                    0 <= i < relative.len() ==> #[trigger] relative[i] != ".."@ && relative[i]
                        != "."@ && relative[i].len() > 0
            },
            Err(_) => relative.len() == 0 || exists|i: int|
                0 <= i < relative.len() && (#[trigger] relative[i] == ".."@ || relative[i] == "."@
                    || relative[i].len() == 0),
        },
{
    match components_of(relative) {
        Ok((directories, name)) => {
            assert(directories.push(name) =~= relative);
            assert forall|i: int| 0 <= i < relative.len() implies #[trigger] relative[i] != ".."@
                && relative[i] != "."@ && relative[i].len() > 0 by {
                assert(relative.contains(relative[i]));
                if relative[i].len() == 0 {
                    assert(relative[i] =~= Seq::<char>::empty());
                }
            }
        },
        Err(_) => {
            if relative.contains(".."@) {
                let i = choose|i: int| 0 <= i < relative.len() && relative[i] == ".."@;
                assert(relative[i] == ".."@);
            } else if relative.contains("."@) {
                let i = choose|i: int| 0 <= i < relative.len() && relative[i] == "."@;
                assert(relative[i] == "."@);
            } else if relative.contains(Seq::<char>::empty()) {
                let i = choose|i: int|
                    0 <= i < relative.len() && relative[i] == Seq::<char>::empty();
                assert(relative[i].len() == 0);
            }
        },
    }
}

/// A path is taken exactly where it begins at the root of the file system and does not go up.
pub proof fn paths_are_absolute(path: Seq<char>)
    ensures
        path_refusal(path) is None <==> path.len() > 0 && path[0] == '/' && !path_parts(
            path,
        ).contains(".."@),
{
}

/// A file is open exactly where its directory and the file itself were opened, and what failed first is
/// what is told.
pub proof fn opening_needs_both(parent: Result<(), String>, file: Opened)
    ensures
        opening_failure(parent, file) is None <==> parent is Ok && file is Done,
        parent matches Err(message) ==> opening_failure(parent, file) == Some(message@),
        parent is Ok ==> match file {
            Opened::Missing(message) | Opened::Failed(message) => opening_failure(parent, file)
                == Some(message@),
            Opened::Done => true,
        },
{
}

/// A path that leads on from a root is reached from it, by the names that follow those of the root; so is
/// one that leads on from what the root stands for.
pub proof fn paths_beneath_are_reached(
    path: Seq<char>,
    root: Seq<char>,
    actual: Seq<char>,
    rest: Seq<Seq<char>>,
)
    requires
        path_refusal(root) is None,
    ensures
        path_parts(path) == path_parts(root) + rest ==> relative_to(path, root, None) == Some(rest)
            && relative_to(path, root, Some(actual)) == Some(rest),
        path_refusal(actual) is None && path_parts(path) == path_parts(actual) + rest && beneath(
            path_parts(path),
            path_parts(root),
        ) is None ==> relative_to(path, root, Some(actual)) == Some(rest),
{
    let target = path_parts(path);
    let near = path_parts(root);
    let far = path_parts(actual);
    assert((near + rest).take(near.len() as int) =~= near);
    assert((near + rest).skip(near.len() as int) =~= rest);
    assert((far + rest).take(far.len() as int) =~= far);
    assert((far + rest).skip(far.len() as int) =~= rest);
}

}
