use bootty_app::git::{
    delete_branch, detach_head, git_dir, head_branch, is_inside, main_worktree, read,
    remove_worktree, run, status, suggested_session_name, trunk_branch, worktree_count,
    worktree_root, worktree_watch_paths, GitEntry, GitOutput, GitQuery, StatusAnswers,
    WorktreeNames, WorktreeRevisions, WorktreeStatus, MAX_WATCHED_WORKTREES,
};
use bootty_app::path::{is_within, parent_path};

fn done(success: bool, stdout: &[u8], stderr: &[u8]) -> GitOutput {
    GitOutput { success, stdout: stdout.to_vec(), stderr: stderr.to_vec() }
}

fn answers() -> StatusAnswers {
    StatusAnswers {
        inside: Some("true".to_owned()),
        git_dir: Some("/repo/.git/worktrees/x".to_owned()),
        common_dir: Some("/repo/.git".to_owned()),
        branch: Some("topic".to_owned()),
        changes: Some("M file".to_owned()),
        unpushed: Some("3".to_owned()),
    }
}

#[test]
fn answers_are_trimmed() {
    assert_eq!(read(Some(done(true, b" main\n", b""))).as_deref(), Some("main"));
    assert_eq!(read(Some(done(true, b"a\xffb\n", b""))).as_deref(), Some("a\u{fffd}b"));
    assert_eq!(read(Some(done(false, b"main", b""))), None);
    assert_eq!(read(None), None);
    assert_eq!(worktree_root(Some(done(true, b"/repo\n", b""))).as_deref(), Some("/repo"));
    run(Ok(done(true, b"", b""))).unwrap();
    assert_eq!(run(Ok(done(false, b"", b" fatal: no\n"))).unwrap_err(), "fatal: no");
    assert_eq!(run(Err("not found".to_owned())).unwrap_err(), "not found");
}

#[test]
fn outside_a_repository_nothing_is_known() {
    let mut given = answers();
    given.inside = None;
    assert!(!is_inside(&given.inside));
    assert_eq!(status(given), WorktreeStatus::default());
}

#[test]
fn nothing_is_known_where_git_fails() {
    let mut given = answers();
    given.changes = None;
    assert_eq!(status(given), WorktreeStatus::default());
    let mut given = answers();
    given.git_dir = None;
    assert_eq!(status(given), WorktreeStatus::default());
    let mut given = answers();
    given.common_dir = None;
    assert_eq!(status(given), WorktreeStatus::default());
    let mut given = answers();
    given.branch = None;
    given.unpushed = None;
    let known = status(given);
    assert!(known.in_repo && known.branch.is_none() && !known.has_upstream);
}

#[test]
fn statuses_are_put_together() {
    let known = status(answers());
    assert!(known.in_repo && known.is_linked_worktree && known.dirty && known.has_upstream);
    assert_eq!(known.branch.as_deref(), Some("topic"));
    assert_eq!(known.unpushed, 3);
    let mut given = answers();
    given.unpushed = Some("none".to_owned());
    given.git_dir = given.common_dir.clone();
    given.changes = Some(String::new());
    let known = status(given);
    assert!(!known.has_upstream && !known.is_linked_worktree && !known.dirty);
}

#[test]
fn commands_are_spelled_out() {
    assert_eq!(
        detach_head("/w").git_command(),
        vec!["-C", "/w", "checkout", "--detach"]
    );
    assert_eq!(
        delete_branch("/w", "topic", true).git_command(),
        vec!["-C", "/w", "branch", "-D", "topic"]
    );
    assert_eq!(
        delete_branch("/w", "topic", false).args,
        vec!["branch", "-d", "topic"]
    );
    assert_eq!(
        remove_worktree(Some("/main".to_owned()), "/w", true).unwrap().git_command(),
        vec!["-C", "/main", "worktree", "remove", "--force", "/w"]
    );
    assert_eq!(
        remove_worktree(None, "/w", false).unwrap_err(),
        "could not locate the main worktree"
    );
    assert_eq!(
        GitQuery::CommonDir.ask("/w").args,
        vec!["rev-parse", "--path-format=absolute", "--git-common-dir"]
    );
}

#[test]
fn worktrees_are_counted() {
    let listed = "worktree /a\nHEAD 1\nbranch refs/heads/worktree x\n\nworktree /b\nHEAD 2\n";
    assert_eq!(worktree_count(Some(listed)), 2);
    assert_eq!(worktree_count(None), 0);
}

#[test]
fn the_trunk_is_the_default_of_the_remote() {
    let head = Some("refs/remotes/origin/main".to_owned());
    assert_eq!(trunk_branch(head, Some("x".to_owned())).as_deref(), Some("main"));
    assert_eq!(trunk_branch(Some("odd".to_owned()), Some("x".to_owned())).as_deref(), Some("x"));
    assert_eq!(trunk_branch(None, None), None);
}

#[test]
fn parents_are_found() {
    assert_eq!(main_worktree(Some("/repo/.git")).as_deref(), Some("/repo"));
    assert_eq!(parent_path("/repo/.git/").as_deref(), Some("/repo"));
    assert_eq!(parent_path("/a/./b/.").as_deref(), Some("/a"));
    assert_eq!(parent_path("/a").as_deref(), Some("/"));
    assert_eq!(parent_path("/"), None);
    assert_eq!(parent_path("a").as_deref(), Some(""));
    assert_eq!(parent_path(""), None);
    assert_eq!(parent_path("./a").as_deref(), Some("."));
    for path in ["/repo/.git", "/a//b/./c/", "a/../b", "./x", ".", "..", "//x", "/x/."] {
        let expected = std::path::Path::new(path)
            .parent()
            .map(|parent| parent.to_string_lossy().into_owned());
        assert_eq!(parent_path(path), expected);
    }
}

#[test]
fn sessions_are_named_after_their_worktree() {
    let names = WorktreeNames {
        worktree: "repo-topic".to_owned(),
        main: Some("repo".to_owned()),
        branch: Some("feature/topic".to_owned()),
    };
    assert_eq!(suggested_session_name("dir", Some(&names)), "repo/topic");
    let detached = WorktreeNames {
        worktree: "repo-topic".to_owned(),
        main: None,
        branch: Some("odd/".to_owned()),
    };
    assert_eq!(suggested_session_name("dir", Some(&detached)), "repo-topic/repo-topic");
    assert_eq!(suggested_session_name("dir", None), "dir");
}

#[test]
fn heads_name_branches_and_commits() {
    assert_eq!(head_branch("ref: refs/heads/main\n").as_deref(), Some("main"));
    assert_eq!(head_branch("ref: refs/tags/v1").as_deref(), Some("refs/tags/v1"));
    assert_eq!(head_branch("0123456789abcdef\n").as_deref(), Some("detached 0123456"));
    assert_eq!(head_branch("abc").as_deref(), Some("detached abc"));
    assert_eq!(head_branch("ref:"), None);
    assert_eq!(head_branch(""), None);
    assert_eq!(head_branch("abcdef\u{e9}x").as_deref(), Some("detached abcdef\u{e9}x"));
}

#[test]
fn git_directories_are_followed() {
    let entries = vec![
        ("/repo/sub".to_owned(), GitEntry::Nothing),
        ("/repo".to_owned(), GitEntry::Directory),
    ];
    assert_eq!(git_dir(&entries).as_deref(), Some("/repo/.git"));
    let linked = vec![(
        "/linked".to_owned(),
        GitEntry::File(Some("gitdir: ../repo/.git/worktrees/x\n".to_owned())),
    )];
    assert_eq!(git_dir(&linked).as_deref(), Some("/linked/../repo/.git/worktrees/x"));
    let absolute =
        vec![("/linked".to_owned(), GitEntry::File(Some("gitdir: /data/x".to_owned())))];
    assert_eq!(git_dir(&absolute).as_deref(), Some("/data/x"));
    let broken = vec![
        ("/linked".to_owned(), GitEntry::File(Some("nonsense".to_owned()))),
        ("/".to_owned(), GitEntry::Directory),
    ];
    assert_eq!(git_dir(&broken), None);
}

#[test]
fn revisions_count_events_beneath_a_worktree() {
    let mut revisions = WorktreeRevisions::new();
    let paths = worktree_watch_paths("/repo", "/repo/.git");
    assert_eq!(paths, vec!["/repo"]);
    assert_eq!(worktree_watch_paths("/w", "/repo/.git"), vec!["/w", "/repo/.git"]);
    assert_eq!(revisions.worktree_revision(paths.clone(), true), 1);
    assert_eq!(revisions.worktree_revision(paths.clone(), false), 1);
    revisions.record_worktree_events(&["/repo/src/lib.rs".to_owned(), "/repo/x".to_owned()]);
    assert_eq!(revisions.worktree_revision(paths, true), 2);
    revisions.record_worktree_events(&["/repository/x".to_owned()]);
    assert_eq!(revisions.revision("/repo"), Some(2));
    assert!(is_within("/repo/x", "/repo") && !is_within("/repository", "/repo"));
}

#[test]
fn only_so_many_worktrees_are_watched() {
    let mut revisions = WorktreeRevisions::new();
    for n in 0..MAX_WATCHED_WORKTREES {
        assert_eq!(revisions.worktree_revision(vec![format!("/repo{n}")], true), 1);
    }
    assert!(!revisions.has_room());
    assert_eq!(revisions.worktree_revision(vec!["/one-more".to_owned()], true), 0);
    assert_eq!(revisions.worktree_revision(vec!["/repo3".to_owned()], true), 1);
}
