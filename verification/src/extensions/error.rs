//! Errors that the extension host reports.

use vstd::prelude::*;
use crate::text::{decimal, decimal_text, join};

verus! {

/// A file action of a failed batch that could not be undone.
#[derive(Clone, Debug, PartialEq, Eq)]
pub struct FileBatchRollbackError {
    pub path: String,
    pub code: String,
    pub message: String,
    pub conflict: bool,
}

/// Why a batch of file actions failed, and whether what it had applied was undone.
#[derive(Clone, Debug, PartialEq, Eq)]
pub struct FileBatchApplyError {
    pub original_code: String,
    pub original_message: String,
    pub rolled_back: bool,
    pub rollback_errors: Vec<FileBatchRollbackError>,
}

/// An error with a stable code and a message for people.
#[derive(Clone, Debug, PartialEq, Eq)]
pub struct ExtensionError {
    pub code: String,
    pub message: String,
    pub details: Option<Box<FileBatchApplyError>>,
}

/// The result of a command.
#[derive(Clone, Debug, PartialEq, Eq)]
pub enum CommandOutcome {
    /// The command succeeded; `value` is its result as JSON text.
    Success { value: String },
    Pending,
    Unsupported { message: String },
    Unavailable { message: String },
    Denied { message: String },
    StaleTarget { message: String },
    Ambiguous { message: String },
    ConfirmationRequired,
    Failed { code: String, message: String },
}

impl ExtensionError {
    /// Whether this is a plain error with the given code and message.
    pub open spec fn is(self, code: Seq<char>, message: Seq<char>) -> bool {
        &&& self.code@ == code
        &&& self.message@ == message
        &&& self.details is None
    }

    /// An error with a code and a message.
    pub fn new(code: &str, message: &str) -> (out: Self)
        ensures
            out.is(code@, message@),
    {
        ExtensionError { code: code.to_owned(), message: message.to_owned(), details: None }
    }

    /// An error whose message is a text followed by another.
    pub fn with_cause(code: &str, message: &str, cause: &str) -> (out: Self)
        ensures
            out.is(code@, message@ + cause@),
    {
        ExtensionError { code: code.to_owned(), message: join(message, cause), details: None }
    }

    /// The code, a colon and the message.
    pub fn to_text(&self) -> (out: String)
        ensures
            out@ == self.code@ + ": "@ + self.message@,
    {
        let head = join(&self.code, ": ");
        join(&head, &self.message)
    }

    /// The message of a batch that failed with `code` and `message` and whose undoing reported
    /// `failures` errors.
    pub open spec fn batch_message(code: Seq<char>, message: Seq<char>, failures: nat) -> Seq<char> {
        if failures == 0 {
            code + ": "@ + message + "; all applied file actions were rolled back"@
        } else {
            code + ": "@ + message + "; file batch rollback reported "@ + decimal(failures)
                + " conflict(s)"@
        }
    }

    /// The error of a batch of file actions: the original failure, and what could not be undone.
    pub fn file_batch_failure(
        original: Self,
        rollback_errors: Vec<FileBatchRollbackError>,
    ) -> (out: Self)
        ensures
            out.code@ == "file_batch_apply_failed"@,
            out.message@ == Self::batch_message(
                original.code@,
                original.message@,
                rollback_errors@.len(),
            ),
            out.details matches Some(details) && {
                &&& details.original_code@ == original.code@
                &&& details.original_message@ == original.message@
                &&& details.rolled_back == (rollback_errors@.len() == 0)
                &&& details.rollback_errors == rollback_errors
            },
    {
        let rolled_back = rollback_errors.len() == 0;
        let head = original.to_text();
        let message = if rolled_back {
            join(&head, "; all applied file actions were rolled back")
        } else {
            let count = decimal_text(rollback_errors.len() as u64);
            let middle = join(&head, "; file batch rollback reported ");
            let counted = join(&middle, &count);
            join(&counted, " conflict(s)")
        };
        ExtensionError {
            code: "file_batch_apply_failed".to_owned(),
            message,
            details: Some(
                Box::new(
                    FileBatchApplyError {
                        original_code: original.code,
                        original_message: original.message,
                        rolled_back,
                        rollback_errors,
                    },
                ),
            ),
        }
    }

    /// The command outcome that reports this error.
    pub fn outcome(self) -> (out: CommandOutcome)
        ensures
            out == (CommandOutcome::Failed { code: self.code, message: self.message }),
    {
        CommandOutcome::Failed { code: self.code, message: self.message }
    }
}

/// The error that a rejected registration reports: that of a failed outcome, or one of its own.
pub fn command_outcome_error(outcome: CommandOutcome) -> (out: ExtensionError)
    ensures
        outcome matches CommandOutcome::Failed { code, message } ==> out.is(code@, message@),
        !(outcome is Failed) ==> out.is(
            "command_registry"@,
            "extension command registration was rejected"@,
        ),
{
    match outcome {
        CommandOutcome::Failed { code, message } => ExtensionError { code, message, details: None },
        _ => ExtensionError::new("command_registry", "extension command registration was rejected"),
    }
}

/// The message of a batch that failed begins with what stopped it, and says that everything was undone
/// exactly where nothing stayed behind.
pub proof fn batch_message_tells_what_stayed(code: Seq<char>, message: Seq<char>, failures: nat)
    ensures
        ({
            let text = ExtensionError::batch_message(code, message, failures);
            let head = code + ": "@ + message;
            &&& text.take(head.len() as int) == head
            &&& failures == 0 <==> text == head + "; all applied file actions were rolled back"@
            &&& failures > 0 ==> text == head + "; file batch rollback reported "@ + decimal(
                failures,
            ) + " conflict(s)"@
        }),
{
    let head = code + ": "@ + message;
    let text = ExtensionError::batch_message(code, message, failures);
    assert(text.take(head.len() as int) =~= head);
    reveal_strlit("; all applied file actions were rolled back");
    reveal_strlit("; file batch rollback reported ");
    let n = head.len() as int;
    assert("; all applied file actions were rolled back"@[2] == 'a');
    assert("; file batch rollback reported "@[2] == 'f');
    if failures > 0 {
        assert(text[n + 2] == 'f');
        assert((head + "; all applied file actions were rolled back"@)[n + 2] == 'a');
    }
}

}
