//! Work that another host does while a new session is being set up. One worker runs at a time in the
//! whole program, and each setup waits for one answer at a time.

use vstd::prelude::*;
use crate::outside::{json_bool_reading, json_text_reading};
use crate::remote_catalog::{
    create_remote_worktree, favorite_answer, list_remote_projects, list_remote_worktrees, repeated,
    toggle_remote_project_favorite, worktree_answer,
};
use crate::text::texts;

verus! {

/// What another host is asked.
#[derive(Debug)]
pub enum RemoteEffect {
    ListProjects,
    /// The worktrees of a project, with the directories that are open.
    ListWorktrees(String, Vec<String>),
    ToggleFavorite(String),
    /// A worktree of a project, on a branch.
    CreateWorktree(String, String),
}

/// What another host answered. The lists are handed on as they came.
#[derive(Debug)]
pub enum RemoteOutcome {
    Projects(String),
    Worktrees(String),
    Favorite { path: String, favorite: bool },
    CreatedWorktree(String),
}

/// What another host is told to do.
pub open spec fn effect_line(effect: RemoteEffect) -> Seq<Seq<char>> {
    match effect {
        RemoteEffect::ListProjects => seq!["remote-project"@, "list"@],
        RemoteEffect::ListWorktrees(project, open_cwds) => seq![
            "remote-worktree"@,
            "list"@,
            "--project"@,
            project@,
        ] + repeated("--open-cwd"@, texts(open_cwds@)),
        RemoteEffect::ToggleFavorite(path) => seq![
            "remote-project"@,
            "favorite"@,
            "--path"@,
            path@,
        ],
        RemoteEffect::CreateWorktree(project, branch) => seq![
            "remote-worktree"@,
            "create"@,
            "--project"@,
            project@,
            "--branch"@,
            branch@,
        ],
    }
}

/// What another host is told to do.
pub fn effect_arguments(effect: &RemoteEffect) -> (out: Vec<String>)
    ensures
        texts(out@) == effect_line(*effect),
{
    match effect {
        RemoteEffect::ListProjects => list_remote_projects(),
        RemoteEffect::ListWorktrees(project, open_cwds) => list_remote_worktrees(
            project,
            open_cwds.as_slice(),
        ),
        RemoteEffect::ToggleFavorite(path) => toggle_remote_project_favorite(path),
        RemoteEffect::CreateWorktree(project, branch) => create_remote_worktree(project, branch),
    }
}

/// What the output of another host means.
pub fn run_effect(effect: RemoteEffect, output: Result<String, String>) -> (out: Result<
    RemoteOutcome,
    String,
>)
    ensures
        match output {
            Err(error) => out matches Err(e) && e == error,
            Ok(text) => match effect {
                RemoteEffect::ListProjects => out matches Ok(o) && o == RemoteOutcome::Projects(
                    text,
                ),
                RemoteEffect::ListWorktrees(_, _) => out matches Ok(o) && o
                    == RemoteOutcome::Worktrees(text),
                RemoteEffect::ToggleFavorite(path) => match json_bool_reading(text@) {
                    Ok(favorite) => out matches Ok(o) && o == (RemoteOutcome::Favorite {
                        path,
                        favorite,
                    }),
                    Err(error) => out matches Err(e) && e@ == error,
                },
                RemoteEffect::CreateWorktree(_, _) => match json_text_reading(text@) {
                    Ok(path) => out matches Ok(RemoteOutcome::CreatedWorktree(p)) && p@ == path,
                    Err(error) => out matches Err(e) && e@ == error,
                },
            },
        },
{
    match output {
        Err(error) => Err(error),
        Ok(text) => match effect {
            RemoteEffect::ListProjects => Ok(RemoteOutcome::Projects(text)),
            RemoteEffect::ListWorktrees(_, _) => Ok(RemoteOutcome::Worktrees(text)),
            RemoteEffect::ToggleFavorite(path) => match favorite_answer(&text) {
                Ok(favorite) => Ok(RemoteOutcome::Favorite { path, favorite }),
                Err(error) => Err(error),
            },
            RemoteEffect::CreateWorktree(_, _) => match worktree_answer(&text) {
                Ok(path) => Ok(RemoteOutcome::CreatedWorktree(path)),
                Err(error) => Err(error),
            },
        },
    }
}

/// Whether a worker is running.
#[derive(Debug)]
pub struct RemoteWorkers {
    pub active: bool,
}

impl RemoteWorkers {
    /// No worker is running.
    pub fn new() -> (out: Self)
        ensures
            !out.active,
    {
        RemoteWorkers { active: false }
    }

    /// Lets a worker run, where none does.
    pub fn acquire(&mut self) -> (out: bool)
        ensures
            out == !old(self).active,
            final(self).active,
    {
        let free = !self.active;
        self.active = true;
        free
    }

    /// A worker is done.
    pub fn release(&mut self)
        ensures
            !final(self).active,
    {
        self.active = false;
    }
}

/// An answer that a setup waits for.
#[derive(Clone, Copy, Debug, PartialEq, Eq, Structural)]
pub enum RemoteTask {
    /// A worker is on it.
    Running,
    /// No worker could be had.
    Refused,
}

/// What came from a worker.
#[derive(Debug)]
pub enum TaskReply {
    /// Nothing so far.
    Nothing,
    /// The worker is gone.
    Stopped,
    Done(Result<RemoteOutcome, String>),
}

/// Why there is no answer.
#[derive(Debug)]
pub enum RemoteTaskError {
    /// An earlier worker has not stopped yet.
    OperationStopping,
    /// The worker is gone.
    TaskStopped,
    Failed(String),
}

/// A new session that is being set up.
#[derive(Debug)]
pub struct RemoteNewSession {
    pub task: Option<RemoteTask>,
}

/// What is to be done to start work.
#[derive(Clone, Copy, Debug, PartialEq, Eq, Structural)]
pub struct StartPlan {
    /// The work that was under way is to be cancelled.
    pub cancel: bool,
    /// A worker is to be started.
    pub spawn: bool,
}

impl RemoteNewSession {
    /// A setup that waits for nothing.
    pub fn new() -> (out: Self)
        ensures
            out.task is None,
    {
        RemoteNewSession { task: None }
    }

    /// Whether an answer is waited for.
    pub fn is_busy(&self) -> (out: bool)
        ensures
            out == (self.task is Some),
    {
        self.task.is_some()
    }

    /// Starts work in place of any that is under way.
    pub fn start(&mut self, workers: &mut RemoteWorkers) -> (out: StartPlan)
        ensures
            out.cancel == (old(self).task is Some),
            out.spawn == !old(workers).active,
            final(self).task == Some(
                if out.spawn {
                    RemoteTask::Running
                } else {
                    RemoteTask::Refused
                },
            ),
            final(workers).active,
    {
        let cancel = self.task.is_some();
        let spawn = workers.acquire();
        self.task =
        Some(
            if spawn {
                RemoteTask::Running
            } else {
                RemoteTask::Refused
            },
        );
        StartPlan { cancel, spawn }
    }

    /// The answer, once it is there. It is given once.
    pub fn poll(&mut self, reply: TaskReply) -> (out: Option<Result<RemoteOutcome, RemoteTaskError>>)
        ensures
            match old(self).task {
                None => out is None,
                Some(RemoteTask::Refused) => out matches Some(Err(error)) && error
                    == RemoteTaskError::OperationStopping,
                Some(RemoteTask::Running) => match reply {
                    TaskReply::Nothing => out is None,
                    TaskReply::Stopped => out matches Some(Err(error)) && error
                        == RemoteTaskError::TaskStopped,
                    TaskReply::Done(Ok(outcome)) => out matches Some(Ok(o)) && o == outcome,
                    TaskReply::Done(Err(error)) => out matches Some(Err(e)) && e
                        == RemoteTaskError::Failed(error),
                },
            },
            final(self).task == (if out is Some {
                None
            } else {
                old(self).task
            }),
    {
        let out = match self.task {
            None => None,
            Some(RemoteTask::Refused) => Some(Err(RemoteTaskError::OperationStopping)),
            Some(RemoteTask::Running) => match reply {
                TaskReply::Nothing => None,
                TaskReply::Stopped => Some(Err(RemoteTaskError::TaskStopped)),
                TaskReply::Done(Ok(outcome)) => Some(Ok(outcome)),
                TaskReply::Done(Err(error)) => Some(Err(RemoteTaskError::Failed(error))),
            },
        };
        if out.is_some() {
            self.task = None;
        }
        out
    }
}

/// Each effect on another host is asked for by its own command line.
pub proof fn effects_are_asked_for(effect: RemoteEffect)
    ensures
        effect is ListProjects ==> effect_line(effect) == seq!["remote-project"@, "list"@],
        effect matches RemoteEffect::ListWorktrees(project, open_cwds) ==> effect_line(effect)
            == seq!["remote-worktree"@, "list"@, "--project"@, project@] + repeated(
            "--open-cwd"@,
            texts(open_cwds@),
        ),
        effect matches RemoteEffect::ToggleFavorite(path) ==> effect_line(effect) == seq![
            "remote-project"@,
            "favorite"@,
            "--path"@,
            path@,
        ],
        effect matches RemoteEffect::CreateWorktree(project, branch) ==> effect_line(effect)
            == seq![
            "remote-worktree"@,
            "create"@,
            "--project"@,
            project@,
            "--branch"@,
            branch@,
        ],
{
}

}
