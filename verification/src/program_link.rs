//! The link by which users start the program from a shell: where it is put, and how the shell finds
//! it.

use vstd::prelude::*;
use crate::path::{is_same_path, join_paths, parts_of, path_join, path_parts, same_path};
use crate::text::{lines, lines_of, same_text, texts};

verus! {

/// Whether a program lies in a bundle: only such a program gets a link.
pub open spec fn is_bundled(executable: Seq<char>) -> bool {
    let parts = path_parts(executable);
    parts.len() >= 3 && parts.skip(parts.len() - 3) == seq!["Contents"@, "MacOS"@, "bootty"@]
}

/// Whether a program lies in a bundle.
pub fn lies_in_bundle(executable: &str) -> (out: bool)
    ensures
        out == is_bundled(executable@),
{
    let parts = parts_of(executable);
    let ghost all = texts(parts@);
    let count = parts.len();
    assert(all.len() == count);
    if count < 3 {
        return false;
    }
    proof {
        assert(all[count - 3] == parts@[count - 3]@);
        assert(all[count - 2] == parts@[count - 2]@);
        assert(all[count - 1] == parts@[count - 1]@);
        let tail = all.skip(count - 3);
        assert(tail[0] == all[count - 3] && tail[1] == all[count - 2] && tail[2] == all[count - 1]);
        let wanted = seq!["Contents"@, "MacOS"@, "bootty"@];
        assert(wanted[0] == "Contents"@ && wanted[1] == "MacOS"@ && wanted[2] == "bootty"@);
        if tail[0] == wanted[0] && tail[1] == wanted[1] && tail[2] == wanted[2] {
            assert(tail =~= wanted);
        }
    }
    same_text(&parts[count - 3], "Contents") && same_text(&parts[count - 2], "MacOS") && same_text(
        &parts[count - 1],
        "bootty",
    )
}

/// The directories in which a link to the program is put: those of the search path in which users
/// keep their programs.
pub open spec fn is_program_directory(directory: Seq<char>, home: Seq<char>) -> bool {
    is_same_path(directory, path_join(home, ".local/bin"@)) || is_same_path(
        directory,
        path_join(home, "bin"@),
    ) || directory == "/usr/local/bin"@ || directory == "/opt/homebrew/bin"@
}

/// Whether users keep their programs in a directory.
pub fn takes_program_link(directory: &str, home: &str) -> (out: bool)
    ensures
        out == is_program_directory(directory@, home@),
{
    let local = join_paths(home, ".local/bin");
    let bin = join_paths(home, "bin");
    same_path(directory, &local) || same_path(directory, &bin) || same_text(
        directory,
        "/usr/local/bin",
    ) || same_text(directory, "/opt/homebrew/bin")
}

/// What stands where the link is to be.
#[derive(Debug)]
pub enum LinkPlace {
    Nothing,
    /// A link to this place.
    Link(String),
    /// Something that is no link.
    Other,
    Failed(String),
}

/// What is to be done about the link.
#[derive(Debug)]
pub enum LinkAction {
    /// Leave what is there.
    Keep,
    /// Remove the link that is there, and make one.
    Replace,
    Create,
    Fail(String),
}

/// What is to be done about the link. A link to another program is replaced; what is no link is left
/// alone.
pub fn link_action(place: LinkPlace, executable: &str) -> (out: LinkAction)
    ensures
        match place {
            LinkPlace::Nothing => out is Create,
            LinkPlace::Link(target) => if is_same_path(target@, executable@) {
                out is Keep
            } else {
                out is Replace
            },
            LinkPlace::Other => out is Keep,
            LinkPlace::Failed(message) => out == LinkAction::Fail(message),
        },
{
    match place {
        LinkPlace::Nothing => LinkAction::Create,
        LinkPlace::Link(target) => {
            if same_path(&target, executable) {
                LinkAction::Keep
            } else {
                LinkAction::Replace
            }
        },
        LinkPlace::Other => LinkAction::Keep,
        LinkPlace::Failed(message) => LinkAction::Fail(message),
    }
}

/// What came of an attempt to put a link in a directory.
#[derive(Debug)]
pub enum LinkAttempt {
    Done,
    /// The directory is not the user's to write to.
    Denied,
    Failed(String),
}

/// What an attempt means for the directories that are left.
#[derive(Debug)]
pub enum LinkSearch {
    /// The link is there.
    Linked,
    /// Another directory is to be tried.
    TryNext,
    Failed(String),
}

/// What an attempt means: a directory that cannot be written to is passed over.
pub fn link_search(attempt: LinkAttempt) -> (out: LinkSearch)
    ensures
        out == (match attempt {
            LinkAttempt::Done => LinkSearch::Linked,
            LinkAttempt::Denied => LinkSearch::TryNext,
            LinkAttempt::Failed(message) => LinkSearch::Failed(message),
        }),
{
    match attempt {
        LinkAttempt::Done => LinkSearch::Linked,
        LinkAttempt::Denied => LinkSearch::TryNext,
        LinkAttempt::Failed(message) => LinkSearch::Failed(message),
    }
}

/// The file that a shell reads at login, under the home directory, and the line that puts the user's
/// programs on the search path.
pub open spec fn path_line(shell: Option<Seq<char>>) -> (Seq<char>, Seq<char>) {
    if shell == Some("fish"@) {
        (".config/fish/config.fish"@, "fish_add_path \"$HOME/.local/bin\""@)
    } else if shell == Some("zsh"@) {
        (".zprofile"@, "export PATH=\"$HOME/.local/bin:$PATH\""@)
    } else {
        (".profile"@, "export PATH=\"$HOME/.local/bin:$PATH\""@)
    }
}

/// The file that a shell reads at login, and the line that puts the user's programs on the search
/// path.
pub fn profile_line(shell: Option<&str>) -> (out: (&'static str, &'static str))
    ensures
        (out.0@, out.1@) == path_line(
            match shell {
                Some(name) => Some(name@),
                None => None,
            },
        ),
{
    let name = match shell {
        Some(name) => name,
        None => {
            return (".profile", "export PATH=\"$HOME/.local/bin:$PATH\"");
        },
    };
    if same_text(name, "fish") {
        (".config/fish/config.fish", "fish_add_path \"$HOME/.local/bin\"")
    } else if same_text(name, "zsh") {
        (".zprofile", "export PATH=\"$HOME/.local/bin:$PATH\"")
    } else {
        (".profile", "export PATH=\"$HOME/.local/bin:$PATH\"")
    }
}

/// Whether a line is to be added to a file: it is not there yet.
pub fn needs_line(contents: &str, line: &str) -> (out: bool)
    ensures
        out == !lines_of(contents@).contains(line@),
{
    let list = lines(contents);
    let ghost all = texts(list@);
    let mut i: usize = 0;
    while i < list.len()
        invariant
            i <= list@.len(),
            all == texts(list@),
            all == lines_of(contents@),
            forall|j: int| 0 <= j < i ==> #[trigger] all[j] != line@,
        decreases list@.len() - i,
    {
        assert(all[i as int] == list@[i as int]@);
        if same_text(&list[i], line) {
            assert(all.contains(line@));
            return false;
        }
        i = i + 1;
    }
    true
}

/// A program is a bundled one exactly where its path ends in the three names of a bundle.
pub proof fn bundles_end_in_their_names(executable: Seq<char>)
    ensures
        is_bundled(executable) <==> {
            let parts = path_parts(executable);
            &&& parts.len() >= 3
            &&& parts[parts.len() - 3] == "Contents"@
            &&& parts[parts.len() - 2] == "MacOS"@
            &&& parts[parts.len() - 1] == "bootty"@
        },
{
    let parts = path_parts(executable);
    if parts.len() >= 3 {
        let end = parts.skip(parts.len() - 3);
        let names = seq!["Contents"@, "MacOS"@, "bootty"@];
        assert(end[0] == parts[parts.len() - 3]);
        assert(end[1] == parts[parts.len() - 2]);
        assert(end[2] == parts[parts.len() - 1]);
        assert(names[0] == "Contents"@ && names[1] == "MacOS"@ && names[2] == "bootty"@);
        if end[0] == names[0] && end[1] == names[1] && end[2] == names[2] {
            assert(end =~= names);
        }
    }
}

/// The places where a program may be linked are the two of the user's own and the two of the machine.
pub proof fn programs_are_linked_in_known_places(home: Seq<char>, directory: Seq<char>)
    ensures
        is_program_directory(path_join(home, ".local/bin"@), home),
        is_program_directory(path_join(home, "bin"@), home),
        is_program_directory("/usr/local/bin"@, home),
        is_program_directory("/opt/homebrew/bin"@, home),
        is_program_directory(directory, home) ==> is_same_path(
            directory,
            path_join(home, ".local/bin"@),
        ) || is_same_path(directory, path_join(home, "bin"@)) || directory == "/usr/local/bin"@
            || directory == "/opt/homebrew/bin"@,
{
}

/// Each shell is told of the place in its own file and its own words.
pub proof fn shells_are_told_in_their_words(shell: Option<Seq<char>>)
    ensures
        shell == Some("fish"@) ==> path_line(shell) == (
            ".config/fish/config.fish"@,
            "fish_add_path \"$HOME/.local/bin\""@,
        ),
        shell == Some("zsh"@) ==> path_line(shell) == (
            ".zprofile"@,
            "export PATH=\"$HOME/.local/bin:$PATH\""@,
        ),
        shell != Some("fish"@) && shell != Some("zsh"@) ==> path_line(shell) == (
            ".profile"@,
            "export PATH=\"$HOME/.local/bin:$PATH\""@,
        ),
{
    reveal_strlit("fish");
    reveal_strlit("zsh");
    assert("fish"@.len() == 4);
    assert("zsh"@.len() == 3);
}

}
