//! What is asked of `git`, and what its answers mean.
//!
//! The commands are run by the caller, who hands the answers back.

use vstd::prelude::*;
use crate::outside::{decode_lossy, utf8_lossy};
use crate::path::{
    is_within, join_paths, lies_within, parent_of, parent_path, path_join, split_of_joined,
    within_means_beneath,
};
use crate::table::{entry_in_map, ids, key_has_entry, map_len, map_of, Table};
use crate::text::{
    beginnings_are_taken_off, chars_of, has_prefix, is_space, join, lines, lines_of, number,
    parse_number, parts_end_at_separators, same_text, split, split_on, starts_with, strip_prefix,
    stripped, text_of, text_opt, texts, trim, trimmed, trimming_takes_the_white_space,
};

verus! {

/// What is known of the working directory of a session. It decides what can be offered when the
/// session is given up.
#[derive(Clone, Debug, PartialEq, Eq)]
pub struct WorktreeStatus {
    /// The directory is inside a work tree.
    pub in_repo: bool,
    /// The directory is in a linked worktree, which can be removed without the main one.
    pub is_linked_worktree: bool,
    /// The current branch, where there is one.
    pub branch: Option<String>,
    /// Something is not committed.
    pub dirty: bool,
    /// How many commits the upstream branch does not have.
    pub unpushed: u32,
    /// There is an upstream branch.
    pub has_upstream: bool,
}

impl Default for WorktreeStatus {
    fn default() -> (out: Self)
        ensures
            out == (WorktreeStatus {
                in_repo: false,
                is_linked_worktree: false,
                branch: None,
                dirty: false,
                unpushed: 0,
                has_upstream: false,
            }),
    {
        WorktreeStatus {
            in_repo: false,
            is_linked_worktree: false,
            branch: None,
            dirty: false,
            unpushed: 0,
            has_upstream: false,
        }
    }
}

/// What a run of `git` left behind.
#[derive(Debug)]
pub struct GitOutput {
    pub success: bool,
    pub stdout: Vec<u8>,
    pub stderr: Vec<u8>,
}

/// A run of `git`: where, and with which arguments.
#[derive(Debug)]
pub struct GitCommand {
    pub cwd: String,
    pub args: Vec<String>,
}

impl GitCommand {
    /// What is put on the command line.
    pub open spec fn line(&self) -> Seq<Seq<char>> {
        seq!["-C"@, self.cwd@] + texts(self.args@)
    }

    /// What is put on the command line.
    pub fn git_command(&self) -> (out: Vec<String>)
        ensures
            texts(out@) == self.line(),
    {
        let mut out = vec!["-C".to_owned(), self.cwd.clone()];
        let mut i: usize = 0;
        assert(texts(out@) =~= seq!["-C"@, self.cwd@] + texts(self.args@).take(0));
        while i < self.args.len()
            invariant
                i <= self.args@.len(),
                texts(out@) == seq!["-C"@, self.cwd@] + texts(self.args@).take(i as int),
            decreases self.args@.len() - i,
        {
            let ghost before = out@;
            out.push(self.args[i].clone());
            proof {
                assert(texts(out@) =~= texts(before).push(self.args@[i as int]@));
                assert(texts(self.args@).take(i + 1) =~= texts(self.args@).take(i as int).push(
                    texts(self.args@)[i as int],
                ));
                assert(texts(out@) =~= seq!["-C"@, self.cwd@] + texts(self.args@).take(i + 1));
            }
            i = i + 1;
        }
        assert(texts(self.args@).take(i as int) =~= texts(self.args@));
        out
    }
}

/// A question about a repository.
#[derive(Clone, Copy, Debug, PartialEq, Eq, Structural)]
pub enum GitQuery {
    InsideWorkTree,
    GitDir,
    CommonDir,
    Branch,
    Changes,
    Unpushed,
    Worktrees,
    OriginHead,
    TopLevel,
}

/// The arguments that ask a question.
pub open spec fn query_arguments(query: GitQuery) -> Seq<Seq<char>> {
    match query {
        GitQuery::InsideWorkTree => seq!["rev-parse"@, "--is-inside-work-tree"@],
        GitQuery::GitDir => seq!["rev-parse"@, "--absolute-git-dir"@],
        GitQuery::CommonDir => seq!["rev-parse"@, "--path-format=absolute"@, "--git-common-dir"@],
        GitQuery::Branch => seq!["symbolic-ref"@, "--quiet"@, "--short"@, "HEAD"@],
        GitQuery::Changes => seq!["status"@, "--porcelain"@],
        GitQuery::Unpushed => seq!["rev-list"@, "--count"@, "@{u}..HEAD"@],
        GitQuery::Worktrees => seq!["worktree"@, "list"@, "--porcelain"@],
        GitQuery::OriginHead => seq!["symbolic-ref"@, "--quiet"@, "refs/remotes/origin/HEAD"@],
        GitQuery::TopLevel => seq!["rev-parse"@, "--show-toplevel"@],
    }
}

impl GitQuery {
    /// The run of `git` that asks a question about a directory.
    pub fn ask(self, cwd: &str) -> (out: GitCommand)
        ensures
            out.cwd@ == cwd@,
            texts(out.args@) == query_arguments(self),
    {
        let args = match self {
            GitQuery::InsideWorkTree => vec![
                "rev-parse".to_owned(),
                "--is-inside-work-tree".to_owned(),
            ],
            GitQuery::GitDir => vec!["rev-parse".to_owned(), "--absolute-git-dir".to_owned()],
            GitQuery::CommonDir => vec![
                "rev-parse".to_owned(),
                "--path-format=absolute".to_owned(),
                "--git-common-dir".to_owned(),
            ],
            GitQuery::Branch => vec![
                "symbolic-ref".to_owned(),
                "--quiet".to_owned(),
                "--short".to_owned(),
                "HEAD".to_owned(),
            ],
            GitQuery::Changes => vec!["status".to_owned(), "--porcelain".to_owned()],
            GitQuery::Unpushed => vec![
                "rev-list".to_owned(),
                "--count".to_owned(),
                "@{u}..HEAD".to_owned(),
            ],
            GitQuery::Worktrees => vec![
                "worktree".to_owned(),
                "list".to_owned(),
                "--porcelain".to_owned(),
            ],
            GitQuery::OriginHead => vec![
                "symbolic-ref".to_owned(),
                "--quiet".to_owned(),
                "refs/remotes/origin/HEAD".to_owned(),
            ],
            GitQuery::TopLevel => vec!["rev-parse".to_owned(), "--show-toplevel".to_owned()],
        };
        assert(texts(args@) =~= query_arguments(self));
        GitCommand { cwd: cwd.to_owned(), args }
    }
}

/// The answer to a question: what was printed, without the white space around it. A run that failed,
/// or never started, gives none.
pub open spec fn answer_of(output: Option<GitOutput>) -> Option<Seq<char>> {
    match output {
        Some(done) if done.success => Some(trim(utf8_lossy(done.stdout@))),
        _ => None,
    }
}

/// The answer to a question.
pub fn read(output: Option<GitOutput>) -> (out: Option<String>)
    ensures
        text_opt(out) == answer_of(output),
{
    match output {
        Some(done) => {
            if done.success {
                let text = decode_lossy(done.stdout.as_slice());
                Some(trimmed(&text))
            } else {
                None
            }
        },
        None => None,
    }
}

/// What became of a run that was to change something. What `git` printed is the error.
pub fn run(output: Result<GitOutput, String>) -> (out: Result<(), String>)
    ensures
        match output {
            Ok(done) => if done.success {
                out is Ok
            } else {
                out matches Err(e) && e@ == trim(utf8_lossy(done.stderr@))
            },
            Err(error) => out matches Err(e) && e == error,
        },
{
    match output {
        Ok(done) => {
            if done.success {
                Ok(())
            } else {
                let text = decode_lossy(done.stderr.as_slice());
                Err(trimmed(&text))
            }
        },
        Err(error) => Err(error),
    }
}

/// The answers that a status is made of.
#[derive(Debug)]
pub struct StatusAnswers {
    pub inside: Option<String>,
    pub git_dir: Option<String>,
    pub common_dir: Option<String>,
    pub branch: Option<String>,
    pub changes: Option<String>,
    pub unpushed: Option<String>,
}

/// Whether a directory is inside a work tree: nothing else needs to be asked where it is not.
pub fn is_inside(answer: &Option<String>) -> (out: bool)
    ensures
        out == (text_opt(*answer) == Some("true"@)),
{
    match answer {
        Some(text) => same_text(text, "true"),
        None => false,
    }
}

/// Whether `git` answered all that it has an answer to: inside a work tree it names its directories
/// and lists the changes. There is no branch where the head is detached, and no count where the
/// branch has no upstream.
pub open spec fn is_answered(answers: StatusAnswers) -> bool {
    &&& text_opt(answers.inside) == Some("true"@)
    &&& answers.git_dir is Some
    &&& answers.common_dir is Some
    &&& answers.changes is Some
}

/// The state of a working directory. Outside a work tree, or where `git` fails, nothing is known of
/// it.
pub fn status(answers: StatusAnswers) -> (out: WorktreeStatus)
    ensures
        !is_answered(answers) ==> out == (WorktreeStatus {
            in_repo: false,
            is_linked_worktree: false,
            branch: None,
            dirty: false,
            unpushed: 0,
            has_upstream: false,
        }),
        is_answered(answers) ==> {
            &&& out.in_repo
            &&& out.is_linked_worktree == (answers.git_dir.unwrap()@
                != answers.common_dir.unwrap()@)
            &&& out.branch == answers.branch
            &&& out.dirty == (answers.changes.unwrap()@.len() > 0)
            &&& match answers.unpushed {
                Some(text) => match number(text@, u32::MAX as nat) {
                    Some(n) => out.has_upstream && out.unpushed == n,
                    None => !out.has_upstream && out.unpushed == 0,
                },
                None => !out.has_upstream && out.unpushed == 0,
            }
        },
{
    let mut status = WorktreeStatus::default();
    if !is_inside(&answers.inside) {
        return status;
    }
    match (&answers.git_dir, &answers.common_dir, &answers.changes) {
        (Some(own), Some(common), Some(changes)) => {
            status.is_linked_worktree = !same_text(own, common);
            status.dirty = changes.unicode_len() > 0;
        },
        _ => {
            return status;
        },
    }
    status.in_repo = true;
    status.branch = answers.branch;
    match &answers.unpushed {
        Some(text) => {
            match parse_number(text, u32::MAX as u64) {
                Some(n) => {
                    status.has_upstream = true;
                    status.unpushed = n as u32;
                },
                None => {},
            }
        },
        None => {},
    }
    status
}

/// Frees the branch of a worktree: the worktree and every commit stay.
pub fn detach_head(worktree_path: &str) -> (out: GitCommand)
    ensures
        out.cwd@ == worktree_path@,
        texts(out.args@) == seq!["checkout"@, "--detach"@],
{
    let args = vec!["checkout".to_owned(), "--detach".to_owned()];
    assert(texts(args@) =~= seq!["checkout"@, "--detach"@]);
    GitCommand { cwd: worktree_path.to_owned(), args }
}

/// How many lines begin with a text.
pub open spec fn lines_beginning(list: Seq<Seq<char>>, prefix: Seq<char>) -> nat
    decreases list.len(),
{
    if list.len() == 0 {
        0
    } else {
        lines_beginning(list.drop_last(), prefix) + (if starts_with(list.last(), prefix) {
            1nat
        } else {
            0nat
        })
    }
}

/// How many worktrees a repository has, the main one among them; none outside a repository.
pub fn worktree_count(listed: Option<&str>) -> (out: usize)
    ensures
        out == match listed {
            Some(text) => lines_beginning(lines_of(text@), "worktree "@),
            None => 0,
        },
{
    match listed {
        None => 0,
        Some(text) => {
            let list = lines(text);
            let ghost all = texts(list@);
            let mut count: usize = 0;
            let mut i: usize = 0;
            assert(all.take(0) =~= Seq::<Seq<char>>::empty());
            while i < list.len()
                invariant
                    i <= list@.len(),
                    count <= i,
                    all == texts(list@),
                    count == lines_beginning(all.take(i as int), "worktree "@),
                decreases list@.len() - i,
            {
                proof {
                    assert(all.take(i + 1).drop_last() =~= all.take(i as int));
                    assert(all.take(i + 1).last() == list@[i as int]@);
                }
                if has_prefix(&list[i], "worktree ") {
                    count = count + 1;
                }
                i = i + 1;
            }
            assert(all.take(i as int) =~= all);
            count
        },
    }
}

/// The branch that the remote names as its default.
pub open spec fn origin_branch(origin_head: Option<Seq<char>>) -> Option<Seq<char>> {
    match origin_head {
        Some(head) => stripped(head, "refs/remotes/origin/"@),
        None => None,
    }
}

/// The trunk of a repository, which is never offered for deletion: the default branch of the remote,
/// or else the branch of the main worktree. Where neither is known, no branch is the trunk.
pub fn trunk_branch(origin_head: Option<String>, main_branch: Option<String>) -> (out: Option<
    String,
>)
    ensures
        text_opt(out) == (match origin_branch(text_opt(origin_head)) {
            Some(branch) => Some(branch),
            None => text_opt(main_branch),
        }),
{
    let named = match origin_head {
        Some(head) => strip_prefix(&head, "refs/remotes/origin/"),
        None => None,
    };
    match named {
        Some(branch) => Some(branch),
        None => main_branch,
    }
}

/// Removes a linked worktree. The command runs in the main worktree, since no worktree is removed from
/// inside; without a main worktree there is no command.
pub fn remove_worktree(main: Option<String>, worktree_path: &str, force: bool) -> (out: Result<
    GitCommand,
    String,
>)
    ensures
        match main {
            Some(dir) => out matches Ok(command) && command.cwd == dir && texts(command.args@)
                == (if force {
                seq!["worktree"@, "remove"@, "--force"@, worktree_path@]
            } else {
                seq!["worktree"@, "remove"@, worktree_path@]
            }),
            None => out matches Err(error) && error@ == "could not locate the main worktree"@,
        },
{
    match main {
        None => Err("could not locate the main worktree".to_owned()),
        Some(dir) => {
            let mut args = vec!["worktree".to_owned(), "remove".to_owned()];
            if force {
                args.push("--force".to_owned());
            }
            args.push(worktree_path.to_owned());
            assert(texts(args@) =~= (if force {
                seq!["worktree"@, "remove"@, "--force"@, worktree_path@]
            } else {
                seq!["worktree"@, "remove"@, worktree_path@]
            }));
            Ok(GitCommand { cwd: dir, args })
        },
    }
}

/// Deletes a branch. With `force` commits that are merged nowhere are lost.
pub fn delete_branch(repo_dir: &str, branch: &str, force: bool) -> (out: GitCommand)
    ensures
        out.cwd@ == repo_dir@,
        texts(out.args@) == seq![
            "branch"@,
            if force {
                "-D"@
            } else {
                "-d"@
            },
            branch@,
        ],
{
    let how = if force {
        "-D".to_owned()
    } else {
        "-d".to_owned()
    };
    let ghost shown = how@;
    let args = vec!["branch".to_owned(), how, branch.to_owned()];
    assert(texts(args@) =~= seq!["branch"@, shown, branch@]);
    GitCommand { cwd: repo_dir.to_owned(), args }
}

/// The main worktree of a repository: the directory in which its shared data stands.
pub fn main_worktree(common_dir: Option<&str>) -> (out: Option<String>)
    ensures
        text_opt(out) == (match common_dir {
            Some(dir) => parent_of(dir@),
            None => None,
        }),
{
    match common_dir {
        Some(dir) => parent_path(dir),
        None => None,
    }
}

/// The root of the worktree that holds a directory.
pub fn worktree_root(output: Option<GitOutput>) -> (out: Option<String>)
    ensures
        text_opt(out) == answer_of(output),
{
    read(output)
}

/// The names that a session in a worktree is made of.
#[derive(Debug)]
pub struct WorktreeNames {
    /// The name of the worktree's directory.
    pub worktree: String,
    /// The name of the main worktree's directory, where it is known.
    pub main: Option<String>,
    pub branch: Option<String>,
}

/// The last part of a worktree's branch, or else the name of the worktree.
pub open spec fn leaf_name(names: WorktreeNames) -> Seq<char> {
    match names.branch {
        Some(branch) if split_on(branch@, '/').last().len() > 0 => split_on(branch@, '/').last(),
        _ => names.worktree@,
    }
}

/// A name for a session: in a worktree its group is the repository, and elsewhere it is named after
/// its directory.
pub fn suggested_session_name(directory: &str, names: Option<&WorktreeNames>) -> (out: String)
    ensures
        out@ == match names {
            None => directory@,
            Some(n) => (match n.main {
                Some(main) => main@,
                None => n.worktree@,
            }) + "/"@ + leaf_name(*n),
        },
{
    match names {
        None => directory.to_owned(),
        Some(n) => {
            let group = match &n.main {
                Some(main) => join(main, "/"),
                None => join(&n.worktree, "/"),
            };
            match &n.branch {
                Some(branch) => {
                    let parts = split(branch, '/');
                    let last = parts.len() - 1;
                    assert(texts(parts@).last() == parts@[last as int]@);
                    if parts[last].unicode_len() > 0 {
                        join(&group, &parts[last])
                    } else {
                        join(&group, &n.worktree)
                    }
                },
                None => join(&group, &n.worktree),
            }
        },
    }
}

/// How many bytes a character takes in UTF-8.
pub open spec fn utf8_len(c: char) -> nat {
    let n = c as u32;
    if n < 0x80 {
        1
    } else if n < 0x800 {
        2
    } else if n < 0x10000 {
        3
    } else {
        4
    }
}

/// The beginning of a text that takes exactly so many bytes. Where no character ends there, it is the
/// whole text.
pub open spec fn byte_prefix(text: Seq<char>, left: int, taken: nat) -> Seq<char>
    decreases text.len() - taken,
{
    if left <= 0 || taken >= text.len() {
        if left == 0 {
            text.take(taken as int)
        } else {
            text
        }
    } else {
        byte_prefix(text, left - utf8_len(text[taken as int]), taken + 1)
    }
}

/// What a `HEAD` file says: a branch, or the commit that is checked out.
pub open spec fn head_label(content: Seq<char>) -> Option<Seq<char>> {
    let head = trim(content);
    match stripped(head, "ref:"@) {
        Some(rest) => {
            let reference = trim(rest);
            let branch = match stripped(reference, "refs/heads/"@) {
                Some(name) => name,
                None => reference,
            };
            if branch.len() > 0 {
                Some(branch)
            } else {
                None
            }
        },
        None => {
            let commit = byte_prefix(head, 7, 0);
            if commit.len() > 0 {
                Some("detached "@ + commit)
            } else {
                None
            }
        },
    }
}

fn first_bytes(text: &str) -> (out: String)
    ensures
        out@ == byte_prefix(text@, 7, 0),
{
    let chars = chars_of(text);
    let mut left: u8 = 7;
    let mut taken: usize = 0;
    while left > 0 && taken < chars.len()
        invariant
            left <= 7,
            taken <= chars@.len(),
            chars@ == text@,
            byte_prefix(text@, 7, 0) == byte_prefix(text@, left as int, taken as nat),
        decreases chars@.len() - taken,
    {
        let n: u32 = chars[taken] as u32;
        let size: u8 = if n < 0x80 {
            1
        } else if n < 0x800 {
            2
        } else if n < 0x10000 {
            3
        } else {
            4
        };
        if size > left {
            assert(byte_prefix(text@, left - size, (taken + 1) as nat) == text@);
            return text.to_owned();
        }
        left = left - size;
        taken = taken + 1;
    }
    if left == 0 {
        assert(chars@.subrange(0, taken as int) =~= text@.take(taken as int));
        text_of(&chars, 0, taken)
    } else {
        text.to_owned()
    }
}

/// What a `HEAD` file says: a branch, or the commit that is checked out.
pub fn head_branch(content: &str) -> (out: Option<String>)
    ensures
        text_opt(out) == head_label(content@),
{
    let head = trimmed(content);
    match strip_prefix(&head, "ref:") {
        Some(rest) => {
            let reference = trimmed(&rest);
            let branch = match strip_prefix(&reference, "refs/heads/") {
                Some(name) => name,
                None => reference,
            };
            if branch.unicode_len() > 0 {
                Some(branch)
            } else {
                None
            }
        },
        None => {
            let commit = first_bytes(&head);
            if commit.unicode_len() > 0 {
                Some(join("detached ", &commit))
            } else {
                None
            }
        },
    }
}

/// What a directory has under the name `.git`.
#[derive(Debug)]
pub enum GitEntry {
    Nothing,
    Directory,
    /// A file, with its content where it can be read.
    File(Option<String>),
}

/// Where the file of a linked worktree points to.
pub open spec fn pointed_at(dir: Seq<char>, content: Seq<char>) -> Option<Seq<char>> {
    match stripped(trim(content), "gitdir:"@) {
        Some(rest) => Some(path_join(dir, trim(rest))),
        None => None,
    }
}

/// The directory in which `git` keeps its data, by what the directories on the way up hold, the
/// nearest first.
pub open spec fn git_dir_of(entries: Seq<(String, GitEntry)>) -> Option<Seq<char>>
    decreases entries.len(),
{
    if entries.len() == 0 {
        None
    } else {
        match entries[0].1 {
            GitEntry::Nothing => git_dir_of(entries.drop_first()),
            GitEntry::Directory => Some(path_join(entries[0].0@, ".git"@)),
            GitEntry::File(content) => match content {
                Some(text) => pointed_at(entries[0].0@, text@),
                None => None,
            },
        }
    }
}

/// The directory in which `git` keeps its data: that of the nearest directory that has one. The file
/// of a linked worktree points to it.
pub fn git_dir(entries: &[(String, GitEntry)]) -> (out: Option<String>)
    ensures
        text_opt(out) == git_dir_of(entries@),
{
    let mut i: usize = 0;
    assert(entries@.skip(0) =~= entries@);
    while i < entries.len()
        invariant
            i <= entries@.len(),
            git_dir_of(entries@) == git_dir_of(entries@.skip(i as int)),
        decreases entries@.len() - i,
    {
        proof {
            assert(entries@.skip(i as int)[0] == entries@[i as int]);
            assert(entries@.skip(i as int).drop_first() =~= entries@.skip(i + 1));
        }
        let dir = &entries[i].0;
        match &entries[i].1 {
            GitEntry::Nothing => {},
            GitEntry::Directory => {
                return Some(join_paths(dir, ".git"));
            },
            GitEntry::File(content) => {
                return match content {
                    Some(text) => {
                        let text = trimmed(text);
                        match strip_prefix(&text, "gitdir:") {
                            Some(rest) => {
                                let target = trimmed(&rest);
                                Some(join_paths(dir, &target))
                            },
                            None => None,
                        }
                    },
                    None => None,
                };
            },
        }
        i = i + 1;
    }
    None
}

/// Most worktrees that are watched at once. Of others nothing is known, and their state is asked for
/// every time.
pub const MAX_WATCHED_WORKTREES: usize = 64;

/// A worktree that is watched: how often something changed in it, and the directories that count.
#[derive(Debug)]
pub struct WorktreeWatch {
    pub revision: u64,
    pub paths: Vec<String>,
}

/// The worktrees that are watched, by their roots.
#[derive(Debug)]
pub struct WorktreeRevisions {
    pub watches: Table<String, WorktreeWatch>,
}

/// The directories to watch for a worktree: its root, and the directory of its data where that lies
/// elsewhere.
pub open spec fn watched_paths(root: Seq<char>, git_dir: Seq<char>) -> Seq<Seq<char>> {
    if lies_within(git_dir, root) {
        seq![root]
    } else {
        seq![root, git_dir]
    }
}

/// The directories to watch for a worktree.
pub fn worktree_watch_paths(root: &str, git_dir: &str) -> (out: Vec<String>)
    ensures
        texts(out@) == watched_paths(root@, git_dir@),
{
    let mut paths = vec![root.to_owned()];
    if !is_within(git_dir, root) {
        paths.push(git_dir.to_owned());
    }
    assert(texts(paths@) =~= watched_paths(root@, git_dir@));
    paths
}

/// Whether an event counts for a watch: one of its paths lies within one of the watched directories.
pub open spec fn touches(paths: Seq<Seq<char>>, events: Seq<Seq<char>>) -> bool {
    exists|i: int, j: int|
        0 <= i < events.len() && 0 <= j < paths.len() && lies_within(
            #[trigger] events[i],
            #[trigger] paths[j],
        )
}

/// The next revision. The count starts over at zero once it has reached the end.
pub open spec fn next_revision(revision: u64) -> u64 {
    if revision < u64::MAX {
        (revision + 1) as u64
    } else {
        0
    }
}

/// A watch after an event.
pub open spec fn after_event(watch: WorktreeWatch, events: Seq<Seq<char>>) -> WorktreeWatch {
    if touches(texts(watch.paths@), events) {
        WorktreeWatch { revision: next_revision(watch.revision), ..watch }
    } else {
        watch
    }
}

fn any_within(events: &[String], paths: &Vec<String>) -> (out: bool)
    ensures
        out == touches(texts(paths@), texts(events@)),
{
    let ghost es = texts(events@);
    let ghost ps = texts(paths@);
    let mut i: usize = 0;
    while i < events.len()
        invariant
            i <= events@.len(),
            es == texts(events@),
            ps == texts(paths@),
            forall|a: int, b: int|
                0 <= a < i && 0 <= b < ps.len() ==> !lies_within(
                    #[trigger] es[a],
                    #[trigger] ps[b],
                ),
        decreases events@.len() - i,
    {
        let mut j: usize = 0;
        while j < paths.len()
            invariant
                i < events@.len(),
                j <= paths@.len(),
                es == texts(events@),
                ps == texts(paths@),
                forall|a: int, b: int|
                    0 <= a < i && 0 <= b < ps.len() ==> !lies_within(
                        #[trigger] es[a],
                        #[trigger] ps[b],
                    ),
                forall|b: int| 0 <= b < j ==> !lies_within(es[i as int], #[trigger] ps[b]),
            decreases paths@.len() - j,
        {
            assert(es[i as int] == events@[i as int]@ && ps[j as int] == paths@[j as int]@);
            if is_within(&events[i], &paths[j]) {
                return true;
            }
            j = j + 1;
        }
        i = i + 1;
    }
    false
}

impl WorktreeRevisions {
    /// No worktree is watched twice, and no more than there is room for.
    pub open spec fn wf(&self) -> bool {
        self.watches.wf() && self.watches.entries@.len() <= MAX_WATCHED_WORKTREES
    }

    /// What a caller learns of a worktree, and what is watched afterwards.
    pub open spec fn tells(&self, after: Self, paths: Vec<String>, watched: bool, out: u64) -> bool {
        let root = paths@[0]@;
        let map = self.watches.map();
        if map.contains_key(root) {
            out == map[root].revision && after == *self
        } else if map.len() >= MAX_WATCHED_WORKTREES || !watched {
            out == 0 && after == *self
        } else {
            out == 1 && after.watches.map() == map.insert(
                root,
                WorktreeWatch { revision: 1, paths },
            )
        }
    }

    /// What is watched after an event.
    pub open spec fn counts(&self, after: Self, events: Seq<Seq<char>>) -> bool {
        after.watches.map() == self.watches.map().map_values(
            |w: WorktreeWatch| after_event(w, events),
        )
    }

    /// Every worktree that is watched has a revision other than zero.
    pub open spec fn counting(&self) -> bool {
        forall|root: Seq<char>| #[trigger]
            self.watches.map().contains_key(root) ==> self.watches.map()[root].revision > 0
    }

    /// No worktree is watched.
    pub fn new() -> (out: Self)
        ensures
            out.wf(),
            out.counting(),
            out.watches.map() == Map::<Seq<char>, WorktreeWatch>::empty(),
    {
        WorktreeRevisions { watches: Table::new() }
    }

    /// How often something changed in a worktree, where it is watched.
    pub fn revision(&self, root: &str) -> (out: Option<u64>)
        requires
            self.wf(),
        ensures
            match out {
                Some(n) => self.watches.map().contains_key(root@)
                    && self.watches.map()[root@].revision == n,
                None => !self.watches.map().contains_key(root@),
            },
    {
        let key = root.to_owned();
        match self.watches.get(&key) {
            Some(watch) => Some(watch.revision),
            None => None,
        }
    }

    /// Whether another worktree can be watched.
    pub fn has_room(&self) -> (out: bool)
        requires
            self.wf(),
        ensures
            out == (self.watches.map().len() < MAX_WATCHED_WORKTREES),
    {
        self.watches.len() < MAX_WATCHED_WORKTREES
    }

    /// What a caller learns of a worktree once its directories were to be watched: the first revision
    /// where all of them are, and zero where one is not, or where there is no room.
    pub fn worktree_revision(&mut self, paths: Vec<String>, watched: bool) -> (out: u64)
        requires
            old(self).wf(),
            paths@.len() > 0,
        ensures
            final(self).wf(),
            old(self).tells(*final(self), paths, watched, out),
    {
        let root = paths[0].clone();
        match self.revision(&root) {
            Some(n) => n,
            None => {
                if !self.has_room() || !watched {
                    return 0;
                }
                let ghost before = self.watches.map();
                proof {
                    map_len(self.watches.entries@);
                }
                self.watches.insert(root, WorktreeWatch { revision: 1, paths });
                proof {
                    map_len(self.watches.entries@);
                    assert(self.watches.map().dom() =~= before.dom().insert(root@));
                    vstd::set::axiom_set_insert_len(before.dom(), root@);
                }
                1
            },
        }
    }

    /// Counts an event for every worktree that it touches.
    pub fn record_worktree_events(&mut self, events: &[String])
        requires
            old(self).wf(),
        ensures
            final(self).wf(),
            old(self).counts(*final(self), texts(events@)),
    {
        let ghost all = self.watches.entries@;
        let ghost map = self.watches.map();
        let ghost es = texts(events@);
        proof {
            map_len(all);
        }
        let mut out: Vec<(String, WorktreeWatch)> = Vec::new();
        assert(all.skip(0) =~= all);
        while self.watches.entries.len() > 0
            invariant
                out@.len() <= all.len(),
                self.watches.entries@ == all.skip(out@.len() as int),
                es == texts(events@),
                forall|k: int|
                    0 <= k < out@.len() ==> (#[trigger] out@[k]).0 == all[k].0 && out@[k].1
                        == after_event(all[k].1, es),
            decreases self.watches.entries@.len(),
        {
            let ghost done = out@.len() as int;
            let (key, mut watch) = self.watches.entries.remove(0);
            assert(key == all[done].0 && watch == all[done].1);
            if any_within(events, &watch.paths) {
                watch.revision =
                if watch.revision < u64::MAX {
                    watch.revision + 1
                } else {
                    0
                };
            }
            out.push((key, watch));
            assert(self.watches.entries@ =~= all.skip(done + 1));
        }
        proof {
            events_keep_keys(all, out@, es);
        }
        self.watches.entries = out;
    }
}

proof fn events_keep_keys(
    all: Seq<(String, WorktreeWatch)>,
    out: Seq<(String, WorktreeWatch)>,
    events: Seq<Seq<char>>,
)
    requires
        ids(all).no_duplicates(),
        out.len() == all.len(),
        forall|k: int|
            0 <= k < out.len() ==> (#[trigger] out[k]).0 == all[k].0 && out[k].1 == after_event(
                all[k].1,
                events,
            ),
    ensures
        ids(out) == ids(all),
        map_of(out) == map_of(all).map_values(|w: WorktreeWatch| after_event(w, events)),
{
    assert(ids(out) =~= ids(all));
    let wanted = map_of(all).map_values(|w: WorktreeWatch| after_event(w, events));
    assert forall|id: Seq<char>| #[trigger] map_of(out).contains_key(id) implies map_of(out)[id]
        == wanted[id] by {
        let k = key_has_entry(all, id);
        entry_in_map(all, k);
        entry_in_map(out, k);
        assert(out[k].0@ == id);
    }
    assert(map_of(out) =~= wanted);
}

/// Zero means that a worktree is not watched. A worktree that comes to be watched starts at one.
pub proof fn zero_is_unwatched(
    before: WorktreeRevisions,
    after: WorktreeRevisions,
    paths: Vec<String>,
    watched: bool,
    out: u64,
)
    requires
        before.counting(),
        before.tells(after, paths, watched, out),
    ensures
        after.counting(),
        out == 0 <==> !after.watches.map().contains_key(paths@[0]@),
        !before.watches.map().contains_key(paths@[0]@) && out != 0 ==> out == 1,
{
    assert forall|root: Seq<char>| #[trigger] after.watches.map().contains_key(root) implies
        after.watches.map()[root].revision > 0 by {
        if before.watches.map().contains_key(root) {
            assert(before.watches.map()[root].revision > 0);
        }
    }
}

/// Changes leave every revision other than zero, as long as no count has reached its end.
pub proof fn changes_keep_counting(
    before: WorktreeRevisions,
    after: WorktreeRevisions,
    events: Seq<Seq<char>>,
)
    requires
        before.counting(),
        before.counts(after, events),
        forall|root: Seq<char>| #[trigger]
            before.watches.map().contains_key(root) ==> before.watches.map()[root].revision
                < u64::MAX,
    ensures
        after.counting(),
        after.watches.map().dom() == before.watches.map().dom(),
{
    assert(after.watches.map().dom() =~= before.watches.map().dom());
    assert forall|root: Seq<char>| #[trigger] after.watches.map().contains_key(root) implies
        after.watches.map()[root].revision > 0 by {
        assert(before.watches.map().contains_key(root));
    }
}

/// What happens to the worktrees that are watched.
pub enum WatchStep {
    /// A caller asks for a revision, and learns it.
    Ask { paths: Vec<String>, watched: bool, out: u64 },
    /// Something changed at these paths.
    Change(Seq<Seq<char>>),
}

/// Whether a step leads from one state to the next.
pub open spec fn steps(before: WorktreeRevisions, after: WorktreeRevisions, step: WatchStep) -> bool {
    match step {
        WatchStep::Ask { paths, watched, out } => before.tells(after, paths, watched, out),
        WatchStep::Change(events) => before.counts(after, events),
    }
}

/// Whether a step changes something in a worktree.
pub open spec fn changes(before: WorktreeRevisions, root: Seq<char>, step: WatchStep) -> bool {
    step matches WatchStep::Change(events) && touches(
        texts(before.watches.map()[root].paths@),
        events,
    )
}

proof fn step_never_falls(
    before: WorktreeRevisions,
    after: WorktreeRevisions,
    step: WatchStep,
    root: Seq<char>,
)
    requires
        steps(before, after, step),
        before.watches.map().contains_key(root),
        before.watches.map()[root].revision < u64::MAX,
    ensures
        after.watches.map().contains_key(root),
        after.watches.map()[root].paths == before.watches.map()[root].paths,
        after.watches.map()[root].revision == before.watches.map()[root].revision + (if changes(
            before,
            root,
            step,
        ) {
            1int
        } else {
            0
        }),
{
}

/// The revision of a worktree never falls, and rises with every change in it, whatever else is asked
/// or happens in between. The count is left out that has reached its end: it starts over there.
pub proof fn revisions_never_fall(
    states: Seq<WorktreeRevisions>,
    taken: Seq<WatchStep>,
    root: Seq<char>,
)
    requires
        states.len() == taken.len() + 1,
        forall|i: int| 0 <= i < taken.len() ==> steps(states[i], states[i + 1], #[trigger] taken[i]),
        states[0].watches.map().contains_key(root),
        forall|i: int|
            0 <= i < taken.len() && (#[trigger] states[i]).watches.map().contains_key(root)
                ==> states[i].watches.map()[root].revision < u64::MAX,
    ensures
        states.last().watches.map().contains_key(root),
        states.last().watches.map()[root].revision >= states[0].watches.map()[root].revision,
        (exists|i: int| 0 <= i < taken.len() && changes(states[i], root, #[trigger] taken[i]))
            ==> states.last().watches.map()[root].revision
            > states[0].watches.map()[root].revision,
    decreases taken.len(),
{
    if taken.len() > 0 {
        let n = taken.len() - 1;
        let fewer = states.drop_last();
        let sooner = taken.drop_last();
        assert forall|i: int| 0 <= i < sooner.len() implies steps(
            fewer[i],
            fewer[i + 1],
            #[trigger] sooner[i],
        ) by {
            assert(sooner[i] == taken[i]);
        }
        assert forall|i: int|
            0 <= i < sooner.len() && (#[trigger] fewer[i]).watches.map().contains_key(
                root,
            ) implies fewer[i].watches.map()[root].revision < u64::MAX by {
            assert(fewer[i] == states[i]);
        }
        revisions_never_fall(fewer, sooner, root);
        assert(fewer.last() == states[n]);
        assert(steps(states[n], states[n + 1], taken[n]));
        step_never_falls(states[n], states[n + 1], taken[n], root);
        if exists|i: int| 0 <= i < taken.len() && changes(states[i], root, #[trigger] taken[i]) {
            let i = choose|i: int|
                0 <= i < taken.len() && changes(states[i], root, #[trigger] taken[i]);
            if i < n {
                assert(changes(fewer[i], root, sooner[i]));
            }
        }
    }
}

/// A repository is asked in the words of its program, in the directory that is meant.
pub proof fn questions_have_their_words(query: GitQuery)
    ensures
        query is InsideWorkTree ==> query_arguments(query) == seq![
            "rev-parse"@,
            "--is-inside-work-tree"@,
        ],
        query is GitDir ==> query_arguments(query) == seq!["rev-parse"@, "--absolute-git-dir"@],
        query is CommonDir ==> query_arguments(query) == seq![
            "rev-parse"@,
            "--path-format=absolute"@,
            "--git-common-dir"@,
        ],
        query is Branch ==> query_arguments(query) == seq![
            "symbolic-ref"@,
            "--quiet"@,
            "--short"@,
            "HEAD"@,
        ],
        query is Changes ==> query_arguments(query) == seq!["status"@, "--porcelain"@],
        query is Unpushed ==> query_arguments(query) == seq![
            "rev-list"@,
            "--count"@,
            "@{u}..HEAD"@,
        ],
        query is Worktrees ==> query_arguments(query) == seq![
            "worktree"@,
            "list"@,
            "--porcelain"@,
        ],
        query is OriginHead ==> query_arguments(query) == seq![
            "symbolic-ref"@,
            "--quiet"@,
            "refs/remotes/origin/HEAD"@,
        ],
        query is TopLevel ==> query_arguments(query) == seq!["rev-parse"@, "--show-toplevel"@],
{
}

/// An answer is what a program wrote, without the white space around it, and only where it succeeded.
pub proof fn answers_are_of_success(output: GitOutput)
    ensures
        answer_of(None) is None,
        !output.success ==> answer_of(Some(output)) is None,
        output.success ==> answer_of(Some(output)) == Some(trim(utf8_lossy(output.stdout@))),
{
}

/// A directory is one of a repository only where the program says `true` and tells where the repository
/// is and what is changed in it.
pub proof fn repositories_answer(answers: StatusAnswers)
    ensures
        is_answered(answers) <==> (answers.inside matches Some(text) && text@ == "true"@)
            && answers.git_dir is Some && answers.common_dir is Some && answers.changes is Some,
{
}

/// Lines that begin in a way are counted one by one.
pub proof fn beginnings_are_counted(
    first: Seq<Seq<char>>,
    second: Seq<Seq<char>>,
    prefix: Seq<char>,
    rest: Seq<char>,
    other: Seq<char>,
)
    requires
        !starts_with(other, prefix),
    ensures
        lines_beginning(first + second, prefix) == lines_beginning(first, prefix) + lines_beginning(
            second,
            prefix,
        ),
        lines_beginning(seq![prefix + rest], prefix) == 1,
        lines_beginning(seq![other], prefix) == 0,
    decreases second.len(),
{
    let none = Seq::<Seq<char>>::empty();
    assert((prefix + rest).take(prefix.len() as int) =~= prefix);
    assert(seq![prefix + rest].drop_last() =~= none);
    assert(seq![other].drop_last() =~= none);
    assert(lines_beginning(none, prefix) == 0);
    if second.len() > 0 {
        let all = first + second;
        assert(all.last() == second.last());
        assert(all.drop_last() =~= first + second.drop_last());
        beginnings_are_counted(first, second.drop_last(), prefix, rest, other);
    } else {
        assert(first + second =~= first);
    }
}

/// The default branch is what follows the name of the remote in the reference, and there is none in any
/// other reference.
pub proof fn default_branch_is_named(branch: Seq<char>, head: Seq<char>)
    ensures
        origin_branch(Some("refs/remotes/origin/"@ + branch)) == Some(branch),
        origin_branch(Some(head)) matches Some(name) ==> head == "refs/remotes/origin/"@ + name,
        origin_branch(None) is None,
{
    beginnings_are_taken_off("refs/remotes/origin/"@, branch, head);
}

/// A worktree is named after the last part of its branch, and after its directory where that is empty or
/// there is no branch.
pub proof fn worktrees_are_named_after_their_branch(
    names: WorktreeNames,
    before: Seq<char>,
    last: Seq<char>,
)
    requires
        !last.contains('/'),
    ensures
        names.branch is None ==> leaf_name(names) == names.worktree@,
        names.branch matches Some(branch) ==> {
            &&& last.len() > 0 && (branch@ == before + seq!['/'] + last || branch@ == last)
                ==> leaf_name(names) == last
            &&& branch@ == before + seq!['/'] || branch@.len() == 0 ==> leaf_name(names)
                == names.worktree@
        },
{
    let none = Seq::<char>::empty();
    assert(before + seq!['/'] + last =~= before.push('/') + last);
    assert(before + seq!['/'] =~= before.push('/') + none);
    split_of_joined(before, last, '/');
    split_of_joined(before, none, '/');
    parts_end_at_separators(last, none, '/');
    parts_end_at_separators(none, none, '/');
    assert((split_on(before, '/') + seq![last]).last() == last);
    assert((split_on(before, '/') + seq![none]).last() == none);
    if names.branch is Some && names.branch->Some_0@.len() == 0 {
        assert(names.branch->Some_0@ =~= none);
    }
}

proof fn ascii_prefix(text: Seq<char>, left: nat, taken: nat)
    requires
        taken + left <= text.len(),
        forall|i: int| 0 <= i < text.len() ==> #[trigger] text[i] as u32 <= 127,
    ensures
        byte_prefix(text, left as int, taken) == text.take((taken + left) as int),
    decreases left,
{
    if left > 0 {
        assert(text[taken as int] as u32 <= 127);
        ascii_prefix(text, (left - 1) as nat, taken + 1);
    }
}

/// The head of a repository shows the branch that it refers to, whatever white space stands around it,
/// and otherwise the first seven characters of the commit.
pub proof fn head_shows_the_branch(
    branch: Seq<char>,
    reference: Seq<char>,
    commit: Seq<char>,
    after: Seq<char>,
)
    requires
        branch.len() > 0,
        !is_space(branch.last()),
        reference.len() > 0,
        !is_space(reference[0]),
        !is_space(reference.last()),
        !starts_with(reference, "refs/heads/"@),
        commit.len() >= 7,
        forall|i: int| 0 <= i < commit.len() ==> '0' <= #[trigger] commit[i] && commit[i] <= 'f',
        !starts_with(commit, "ref:"@),
        forall|i: int| 0 <= i < after.len() ==> is_space(#[trigger] after[i]),
    ensures
        head_label("ref: refs/heads/"@ + branch + after) == Some(branch),
        head_label("ref: "@ + reference + after) == Some(reference),
        head_label(commit + after) == Some("detached "@ + commit.take(7)),
        head_label(after) is None,
{
    let none = Seq::<char>::empty();
    reveal_strlit("ref: ");
    reveal_strlit("ref:");
    reveal_strlit("refs/heads/");
    reveal_strlit("ref: refs/heads/");
    let name = "refs/heads/"@ + branch;
    assert("ref: refs/heads/"@ =~= "ref: "@ + "refs/heads/"@);
    assert("ref: refs/heads/"@ + branch + after =~= "ref: "@ + name + after);
    beginnings_are_taken_off("refs/heads/"@, branch, none);
    assert(name[0] == 'r' && name.last() == branch.last());
    reference_is_read(name, after);
    reference_is_read(reference, after);
    assert(!is_space(commit[0]) && !is_space(commit[commit.len() - 1]));
    trimming_takes_the_white_space(none, commit, after);
    assert(none + commit + after =~= commit + after);
    assert forall|i: int| 0 <= i < commit.len() implies #[trigger] commit[i] as u32 <= 127 by {
        assert('0' <= commit[i] && commit[i] <= 'f');
    }
    ascii_prefix(commit, 7, 0);
    trimming_takes_the_white_space(none, none, after);
    assert(none + none + after =~= after);
}

proof fn reference_is_read(reference: Seq<char>, after: Seq<char>)
    requires
        reference.len() > 0,
        !is_space(reference[0]),
        !is_space(reference.last()),
        forall|i: int| 0 <= i < after.len() ==> is_space(#[trigger] after[i]),
    ensures
        stripped(trim("ref: "@ + reference + after), "ref:"@) == Some(seq![' '] + reference),
        trim(seq![' '] + reference) == reference,
{
    let none = Seq::<char>::empty();
    reveal_strlit("ref: ");
    reveal_strlit("ref:");
    let head = "ref: "@ + reference;
    assert(head[0] == 'r' && head.last() == reference.last());
    trimming_takes_the_white_space(none, head, after);
    assert(none + head + after =~= "ref: "@ + reference + after);
    assert(head =~= "ref:"@ + (seq![' '] + reference));
    beginnings_are_taken_off("ref:"@, seq![' '] + reference, none);
    assert(is_space(seq![' '][0]));
    trimming_takes_the_white_space(seq![' '], reference, none);
    assert(seq![' '] + reference + none =~= seq![' '] + reference);
}

/// The directory of a repository is found at the first entry on the way up that has one: that directory
/// itself, or what a file there points at.
pub proof fn first_repository_counts(entries: Seq<(String, GitEntry)>, i: int)
    ensures
        0 <= i < entries.len() && !(entries[i].1 is Nothing) && (forall|j: int|
            0 <= j < i ==> (#[trigger] entries[j]).1 is Nothing) ==> match entries[i].1 {
            GitEntry::Directory => git_dir_of(entries) == Some(path_join(entries[i].0@, ".git"@)),
            GitEntry::File(Some(text)) => git_dir_of(entries) == pointed_at(entries[i].0@, text@),
            _ => git_dir_of(entries) is None,
        },
        (forall|j: int| 0 <= j < entries.len() ==> (#[trigger] entries[j]).1 is Nothing)
            ==> git_dir_of(entries) is None,
    decreases entries.len(),
{
    if entries.len() > 0 {
        let rest = entries.drop_first();
        first_repository_counts(rest, i - 1);
        assert forall|j: int| 0 <= j < rest.len() implies #[trigger] rest[j] == entries[j + 1] by {}
        if 0 < i < entries.len() && (forall|j: int|
            0 <= j < i ==> (#[trigger] entries[j]).1 is Nothing) {
            assert(entries[0].1 is Nothing);
            assert(rest[i - 1] == entries[i]);
        }
        if forall|j: int| 0 <= j < entries.len() ==> (#[trigger] entries[j]).1 is Nothing {
            assert(entries[0].1 is Nothing);
        }
    }
}

/// A file that stands for a repository points at its directory, from where it stands; any other file
/// points nowhere.
pub proof fn files_point_at_repositories(dir: Seq<char>, place: Seq<char>, content: Seq<char>)
    requires
        place.len() > 0,
        !is_space(place[0]),
        !is_space(place.last()),
    ensures
        pointed_at(dir, "gitdir: "@ + place + "\n"@) == Some(path_join(dir, place)),
        !starts_with(trim(content), "gitdir:"@) ==> pointed_at(dir, content) is None,
{
    let none = Seq::<char>::empty();
    reveal_strlit("gitdir: ");
    reveal_strlit("gitdir:");
    reveal_strlit("\n");
    let line = "gitdir: "@ + place;
    assert(line[0] == 'g' && line.last() == place.last());
    assert(is_space("\n"@[0]));
    trimming_takes_the_white_space(none, line, "\n"@);
    assert(none + line + "\n"@ =~= "gitdir: "@ + place + "\n"@);
    assert(line =~= "gitdir:"@ + (seq![' '] + place));
    beginnings_are_taken_off("gitdir:"@, seq![' '] + place, none);
    assert(is_space(seq![' '][0]));
    trimming_takes_the_white_space(seq![' '], place, none);
    assert(seq![' '] + place + none =~= seq![' '] + place);
}

/// A worktree is watched where it is, and its repository too where that lies elsewhere.
pub proof fn worktree_and_repository_are_watched(root: Seq<char>, git_dir: Seq<char>)
    ensures
        watched_paths(root, git_dir).len() > 0,
        watched_paths(root, git_dir)[0] == root,
        exists|i: int|
            0 <= i < watched_paths(root, git_dir).len() && lies_within(
                git_dir,
                #[trigger] watched_paths(root, git_dir)[i],
            ),
        watched_paths(root, git_dir).len() == if lies_within(git_dir, root) {
            1nat
        } else {
            2nat
        },
{
    within_means_beneath(git_dir, root);
    let paths = watched_paths(root, git_dir);
    if lies_within(git_dir, root) {
        assert(lies_within(git_dir, paths[0]));
    } else {
        assert(lies_within(git_dir, paths[1]));
    }
}

/// A change beneath a watched path counts one revision more, and no other change does; the count begins
/// again after its last number.
pub proof fn changes_beneath_are_counted(watch: WorktreeWatch, events: Seq<Seq<char>>, i: int, j: int)
    ensures
        0 <= i < events.len() && 0 <= j < watch.paths@.len() && lies_within(
            events[i],
            watch.paths@[j]@,
        ) && watch.revision < u64::MAX ==> after_event(watch, events).revision == watch.revision + 1,
        (forall|a: int, b: int|
            0 <= a < events.len() && 0 <= b < watch.paths@.len() ==> !lies_within(
                #[trigger] events[a],
                #[trigger] watch.paths@[b]@,
            )) ==> after_event(watch, events) == watch,
        after_event(watch, events).paths == watch.paths,
{
    let paths = texts(watch.paths@);
    if 0 <= i < events.len() && 0 <= j < watch.paths@.len() && lies_within(
        events[i],
        watch.paths@[j]@,
    ) {
        assert(paths[j] == watch.paths@[j]@);
        assert(touches(paths, events));
    }
    if touches(paths, events) {
        let (a, b) = choose|a: int, b: int|
            0 <= a < events.len() && 0 <= b < paths.len() && lies_within(
                #[trigger] events[a],
                #[trigger] paths[b],
            );
        assert(lies_within(events[a], watch.paths@[b]@));
    }
}

/// A worktree that is watched already tells its revision. A new one is watched from revision one on, where
/// it can be and there are fewer than 64; otherwise it tells none, and nothing changes.
pub proof fn worktrees_are_watched_from_one(
    before: WorktreeRevisions,
    after: WorktreeRevisions,
    paths: Vec<String>,
    watched: bool,
    out: u64,
)
    requires
        before.tells(after, paths, watched, out),
    ensures
        ({
            let root = paths@[0]@;
            let known = before.watches.map().contains_key(root);
            let room = watched && before.watches.map().len() < 64;
            &&& known ==> out == before.watches.map()[root].revision && after == before
            &&& !known && room ==> {
                &&& out == 1
                &&& after.watches.map().contains_key(root)
                &&& after.watches.map()[root].revision == 1
                &&& after.watches.map()[root].paths == paths
            }
            &&& !known && !room ==> out == 0 && after == before
        }),
{
}

}
