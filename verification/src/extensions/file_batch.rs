//! Applying confirmed file actions: all of them, or what was applied is undone.

use vstd::prelude::*;
use vstd::utf8::encode_utf8;
use super::error::{ExtensionError, FileBatchRollbackError};
use super::file_commit::{
    file_conflict, file_conflict_because, finished_commit_leaves_the_contents, is_start,
    same_snapshot, snapshot_matches, FileCommit, FileEvent, FileIdentity, FileSnapshot,
    FileVersion, Files, Look,
};
use super::file_removal::{
    removed_file_is_gone, FileRemoval, RemovalEvent, RemovalFiles, RemovalPhase,
};
use super::files::{
    actions_digest, looked_at, preview_of, same_previews, single_transaction_digest, TargetLook,
};
use super::json::{field, natural_field, text_field, Json};
use super::runtime::{
    key_of, refused_by, ExtensionRuntime, FileConfirmation, FileTransaction,
    FileTransactionOperation, FileTransactionPreview,
};
use crate::bytes::same_bytes;
use crate::outside::{json_reading, read_json};
use crate::table::TableKey;
use crate::text::same_text;

verus! {

/// Whether a JSON value is a preview: an object with exactly its six fields.
pub open spec fn is_preview_json(value: Json, preview: FileTransactionPreview) -> bool {
    &&& value matches Json::Object(fields) && fields@.len() == 6
    &&& text_field(value, "path"@) == Some(preview.path@)
    &&& field(value, "existed"@) == Some(Json::Bool(preview.existed))
    &&& natural_field(value, "before_bytes"@) == Some(preview.before_bytes as u64)
    &&& natural_field(value, "after_bytes"@) == Some(preview.after_bytes as u64)
    &&& field(value, "changed"@) == Some(Json::Bool(preview.changed))
    &&& field(value, "destructive"@) == Some(Json::Bool(preview.destructive))
}

fn flag_is(value: &Json, name: &str, expected: bool) -> (out: bool)
    ensures
        out == (field(*value, name@) == Some(Json::Bool(expected))),
{
    match value.get(name) {
        Some(Json::Bool(b)) => *b == expected,
        _ => false,
    }
}

fn number_is(value: &Json, name: &str, expected: u64) -> (out: bool)
    ensures
        out == (natural_field(*value, name@) == Some(expected)),
{
    match value.get_natural(name) {
        Some(n) => n == expected,
        None => false,
    }
}

fn text_is(value: &Json, name: &str, expected: &str) -> (out: bool)
    ensures
        out == (text_field(*value, name@) == Some(expected@)),
{
    match value.get_text(name) {
        Some(s) => same_text(s, expected),
        None => false,
    }
}

/// Whether a JSON value is a preview.
pub fn preview_matches(value: &Json, preview: &FileTransactionPreview) -> (out: bool)
    ensures
        out == is_preview_json(*value, *preview),
{
    let sized = match value {
        Json::Object(fields) => fields.len() == 6,
        _ => false,
    };
    sized && text_is(value, "path", &preview.path) && flag_is(value, "existed", preview.existed)
        && number_is(value, "before_bytes", preview.before_bytes as u64) && number_is(
        value,
        "after_bytes",
        preview.after_bytes as u64,
    ) && flag_is(value, "changed", preview.changed) && flag_is(
        value,
        "destructive",
        preview.destructive,
    )
}

/// Whether a JSON value is a list of previews.
pub open spec fn is_previews_json(value: Json, previews: Seq<FileTransactionPreview>) -> bool {
    value matches Json::Array(items) && items@.len() == previews.len() && forall|i: int|
        0 <= i < previews.len() ==> is_preview_json(#[trigger] items@[i], previews[i])
}

fn previews_match_json(value: &Json, previews: &Vec<FileTransactionPreview>) -> (out: bool)
    ensures
        out == is_previews_json(*value, previews@),
{
    match value {
        Json::Array(items) => {
            if items.len() != previews.len() {
                return false;
            }
            let mut i: usize = 0;
            while i < items.len()
                invariant
                    i <= items@.len(),
                    items@.len() == previews@.len(),
                    *value == Json::Array(*items),
                    forall|j: int|
                        0 <= j < i ==> is_preview_json(#[trigger] items@[j], previews@[j]),
                decreases items@.len() - i,
            {
                if !preview_matches(&items[i], &previews[i]) {
                    assert(!is_preview_json(items@[i as int], previews@[i as int]));
                    return false;
                }
                i = i + 1;
            }
            true
        },
        _ => false,
    }
}

/// Whether the expectation that is presented with a token is exactly what was confirmed.
pub open spec fn expectation_met(
    confirmation: FileConfirmation,
    id: Seq<char>,
    generation: u64,
    expected: Json,
) -> bool {
    &&& confirmation.extension.0@ == id
    &&& confirmation.generation == generation
    &&& natural_field(expected, "transaction_id"@) == Some(confirmation.transaction_id)
    &&& text_field(expected, "digest"@) == Some(confirmation.digest@)
    &&& field(expected, "preview"@) matches Some(value) && is_preview_json(
        value,
        confirmation.preview,
    )
    &&& field(expected, "previews"@) matches Some(value) ==> is_previews_json(
        value,
        confirmation.previews@,
    )
}

impl ExtensionRuntime {
    /// Why a presented expectation is refused; `None` where it is not.
    pub open spec fn expectation_refusal(
        &self,
        id: Seq<char>,
        generation: u64,
        expected: Json,
        token: Seq<char>,
    ) -> Option<(Seq<char>, Seq<char>)> {
        let records = self.file_confirmations.map();
        if !records.contains_key(token) {
            Some(
                (
                    "invalid_confirmation"@,
                    "file confirmation token is unknown or already consumed"@,
                ),
            )
        } else if !(expected is Object) {
            Some(
                (
                    "invalid_confirmation"@,
                    "file confirmation expectation must be an object"@,
                ),
            )
        } else if natural_field(expected, "transaction_id"@) is None {
            Some(
                ("invalid_confirmation"@, "file confirmation transaction_id is required"@),
            )
        } else if text_field(expected, "digest"@) is None {
            Some(("invalid_confirmation"@, "file confirmation digest is required"@))
        } else if field(expected, "preview"@) is None {
            Some(("invalid_confirmation"@, "file confirmation preview is required"@))
        } else if !expectation_met(records[token].confirmation, id, generation, expected) {
            Some(
                (
                    "invalid_confirmation"@,
                    "file confirmation does not match the exact transaction preview"@,
                ),
            )
        } else {
            self.refusal(id, generation)
        }
    }

    /// Checks that a token confirms exactly what is expected. The token stays good.
    pub fn validate_file_confirmation(
        &self,
        id: &str,
        generation: u64,
        expected: &Json,
        token: &str,
    ) -> (out: Result<(), ExtensionError>)
        requires
            self.wf(),
        ensures
            out is Ok <==> self.expectation_refusal(id@, generation, *expected, token@) is None,
            refused_by(out, self.expectation_refusal(id@, generation, *expected, token@)),
    {
        let key = key_of(token);
        let record = match self.file_confirmations.get(&key) {
            Some(record) => record,
            None => {
                return Err(
                    ExtensionError::new(
                        "invalid_confirmation",
                        "file confirmation token is unknown or already consumed",
                    ),
                );
            },
        };
        let object = match expected {
            Json::Object(_) => true,
            _ => false,
        };
        if !object {
            return Err(
                ExtensionError::new(
                    "invalid_confirmation",
                    "file confirmation expectation must be an object",
                ),
            );
        }
        let transaction = match expected.get_natural("transaction_id") {
            Some(n) => n,
            None => {
                return Err(
                    ExtensionError::new(
                        "invalid_confirmation",
                        "file confirmation transaction_id is required",
                    ),
                );
            },
        };
        let digest = match expected.get_text("digest") {
            Some(s) => s,
            None => {
                return Err(
                    ExtensionError::new(
                        "invalid_confirmation",
                        "file confirmation digest is required",
                    ),
                );
            },
        };
        let preview = match expected.get("preview") {
            Some(value) => value,
            None => {
                return Err(
                    ExtensionError::new(
                        "invalid_confirmation",
                        "file confirmation preview is required",
                    ),
                );
            },
        };
        let previews_agree = match expected.get("previews") {
            Some(value) => previews_match_json(value, &record.confirmation.previews),
            None => true,
        };
        let agrees = same_text(&record.confirmation.extension.0, id)
            && record.confirmation.generation == generation && record.confirmation.transaction_id
            == transaction && same_text(&record.confirmation.digest, digest) && preview_matches(
            preview,
            &record.confirmation.preview,
        ) && previews_agree;
        if !agrees {
            return Err(
                ExtensionError::new(
                    "invalid_confirmation",
                    "file confirmation does not match the exact transaction preview",
                ),
            );
        }
        match self.package_generation(id, generation) {
            Err(error) => Err(error),
            Ok(_) => Ok(()),
        }
    }
}

/// What an action writes, as a caller gives it.
#[derive(Debug)]
pub enum EntryContent {
    /// Nothing is given.
    Missing,
    Text(String),
    /// A value other than a text, as JSON text.
    Value(String),
}

/// An action of a batch, as a caller lists it.
#[derive(Debug)]
pub enum BatchEntry {
    /// The entry is no object.
    NotObject,
    /// What the fields of the object hold: the path and the operation, where they are texts.
    Object { path: Option<String>, operation: Option<String>, content: EntryContent },
}

/// The operation that an action names; writing where it names none.
pub open spec fn named_operation(operation: Option<String>) -> Seq<char> {
    match operation {
        Some(name) => name@,
        None => "write"@,
    }
}

/// The bytes that an action writes: those of a text, or those of another value's JSON text in compact
/// form. Where it is no JSON, the message of the error.
pub open spec fn content_bytes(content: EntryContent) -> Option<Result<Seq<u8>, Seq<char>>> {
    match content {
        EntryContent::Missing => None,
        EntryContent::Text(s) => Some(Ok(encode_utf8(s@))),
        EntryContent::Value(s) => match json_reading(s@) {
            Ok(compact) => Some(Ok(encode_utf8(compact))),
            Err(message) => Some(Err(message)),
        },
    }
}

/// Why an action is not the one that was confirmed; `None` where it is.
pub open spec fn action_refusal(entry: BatchEntry, transaction: FileTransaction) -> Option<
    (Seq<char>, Seq<char>),
> {
    match entry {
        BatchEntry::NotObject => Some(
            ("invalid_file_actions"@, "file action must be an object"@),
        ),
        BatchEntry::Object { path, operation, content } => if path is None {
            Some(("invalid_file_actions"@, "file action path is required"@))
        } else if path.unwrap()@ != transaction.preview.path@ {
            Some(
                (
                    "invalid_confirmation"@,
                    "file action path does not match the exact transaction"@,
                ),
            )
        } else if named_operation(operation) != (if transaction.operation is Write {
            "write"@
        } else {
            "remove"@
        }) {
            Some(
                (
                    "invalid_file_actions"@,
                    "file action operation does not match the exact transaction"@,
                ),
            )
        } else if transaction.operation is Remove {
            None
        } else {
            match content_bytes(content) {
                None => Some(("invalid_file_actions"@, "write action content is required"@)),
                Some(Err(message)) => Some(("invalid_file_actions"@, message)),
                Some(Ok(bytes)) => if bytes != transaction.contents@ {
                    Some(
                        (
                            "invalid_confirmation"@,
                            "file action content does not match the exact transaction"@,
                        ),
                    )
                } else {
                    None
                },
            }
        },
    }
}

fn check_content(content: &EntryContent, wanted: &[u8]) -> (out: Result<(), ExtensionError>)
    ensures
        match content_bytes(*content) {
            None => out matches Err(e) && e.is(
                "invalid_file_actions"@,
                "write action content is required"@,
            ),
            Some(Err(message)) => out matches Err(e) && e.is("invalid_file_actions"@, message),
            Some(Ok(bytes)) => if bytes == wanted@ {
                out is Ok
            } else {
                out matches Err(e) && e.is(
                    "invalid_confirmation"@,
                    "file action content does not match the exact transaction"@,
                )
            },
        },
{
    let same = match content {
        EntryContent::Missing => {
            return Err(
                ExtensionError::new("invalid_file_actions", "write action content is required"),
            );
        },
        EntryContent::Text(s) => same_bytes(s.as_str().as_bytes(), wanted),
        EntryContent::Value(s) => match read_json(s) {
            Err(message) => {
                return Err(ExtensionError::new("invalid_file_actions", &message));
            },
            Ok(compact) => same_bytes(compact.as_str().as_bytes(), wanted),
        },
    };
    if same {
        Ok(())
    } else {
        Err(
            ExtensionError::new(
                "invalid_confirmation",
                "file action content does not match the exact transaction",
            ),
        )
    }
}

fn check_action(entry: &BatchEntry, transaction: &FileTransaction) -> (out: Result<
    (),
    ExtensionError,
>)
    ensures
        out is Ok <==> action_refusal(*entry, *transaction) is None,
        refused_by(out, action_refusal(*entry, *transaction)),
{
    let (path, operation, content) = match entry {
        BatchEntry::NotObject => {
            return Err(
                ExtensionError::new("invalid_file_actions", "file action must be an object"),
            );
        },
        BatchEntry::Object { path, operation, content } => (path, operation, content),
    };
    match path {
        None => {
            return Err(
                ExtensionError::new("invalid_file_actions", "file action path is required"),
            );
        },
        Some(path) => {
            if !same_text(path, &transaction.preview.path) {
                return Err(
                    ExtensionError::new(
                        "invalid_confirmation",
                        "file action path does not match the exact transaction",
                    ),
                );
            }
        },
    }
    let named: &str = match operation {
        Some(name) => name.as_str(),
        None => "write",
    };
    let wanted = match transaction.operation {
        FileTransactionOperation::Write => "write",
        FileTransactionOperation::Remove => "remove",
    };
    if !same_text(named, wanted) {
        return Err(
            ExtensionError::new(
                "invalid_file_actions",
                "file action operation does not match the exact transaction",
            ),
        );
    }
    match transaction.operation {
        FileTransactionOperation::Remove => Ok(()),
        FileTransactionOperation::Write => check_content(content, &transaction.contents),
    }
}

/// The first action that is not the confirmed one, from `from` on; `None` where all are.
pub open spec fn actions_refusal(
    entries: Seq<BatchEntry>,
    transactions: Seq<FileTransaction>,
    from: int,
) -> Option<(Seq<char>, Seq<char>)>
    decreases entries.len() - from,
{
    if from < 0 || from >= entries.len() {
        None
    } else if action_refusal(entries[from], transactions[from]) is Some {
        action_refusal(entries[from], transactions[from])
    } else {
        actions_refusal(entries, transactions, from + 1)
    }
}

impl ExtensionRuntime {
    /// Why a batch of actions is not applied; `None` where it is the one that the token confirms.
    /// There are no actions where what the caller gave is no list.
    pub open spec fn batch_refusal(
        &self,
        id: Seq<char>,
        generation: u64,
        actions: Option<Vec<BatchEntry>>,
        token: Seq<char>,
    ) -> Option<(Seq<char>, Seq<char>)> {
        let records = self.file_confirmations.map();
        match actions {
            Some(entries) => if !records.contains_key(token) {
                Some(
                    (
                        "invalid_confirmation"@,
                        "file confirmation token is unknown or already consumed"@,
                    ),
                )
            } else if records[token].confirmation.extension.0@ != id
                || records[token].confirmation.generation != generation || entries@.len()
                != records[token].transactions@.len() {
                Some(
                    (
                        "invalid_confirmation"@,
                        "file confirmation does not match the exact file action batch"@,
                    ),
                )
            } else if actions_refusal(entries@, records[token].transactions@, 0) is Some {
                actions_refusal(entries@, records[token].transactions@, 0)
            } else {
                self.refusal(id, generation)
            },
            None => Some(("invalid_file_actions"@, "file actions must be an array"@)),
        }
    }

    /// Begins to apply a batch of actions, where it is exactly the one that a token confirms.
    pub fn apply_file_confirmation(
        &self,
        id: &str,
        generation: u64,
        actions: &Option<Vec<BatchEntry>>,
        token: &str,
    ) -> (out: Result<FileBatch, ExtensionError>)
        requires
            self.wf(),
        ensures
            out is Ok <==> self.batch_refusal(id@, generation, *actions, token@) is None,
            refused_by(out, self.batch_refusal(id@, generation, *actions, token@)),
            out matches Ok(batch) ==> batch.begins(
                self.file_confirmations.map()[token@].transactions@.map_values(
                    |t: FileTransaction| t.preview,
                ),
            ),
    {
        let entries = match actions {
            Some(entries) => entries,
            None => {
                return Err(
                    ExtensionError::new("invalid_file_actions", "file actions must be an array"),
                );
            },
        };
        let key = key_of(token);
        let record = match self.file_confirmations.get(&key) {
            Some(record) => record,
            None => {
                return Err(
                    ExtensionError::new(
                        "invalid_confirmation",
                        "file confirmation token is unknown or already consumed",
                    ),
                );
            },
        };
        if !same_text(&record.confirmation.extension.0, id) || record.confirmation.generation
            != generation || entries.len() != record.transactions.len() {
            return Err(
                ExtensionError::new(
                    "invalid_confirmation",
                    "file confirmation does not match the exact file action batch",
                ),
            );
        }
        let mut i: usize = 0;
        while i < entries.len()
            invariant
                i <= entries@.len(),
                entries@.len() == record.transactions@.len(),
                *actions == Some(*entries),
                self.file_confirmations.map().contains_key(token@),
                *record == self.file_confirmations.map()[token@],
                record.confirmation.extension.0@ == id@,
                record.confirmation.generation == generation,
                actions_refusal(entries@, record.transactions@, i as int) == actions_refusal(
                    entries@,
                    record.transactions@,
                    0,
                ),
            decreases entries@.len() - i,
        {
            match check_action(&entries[i], &record.transactions[i]) {
                Err(error) => {
                    return Err(error);
                },
                Ok(()) => {},
            }
            i = i + 1;
        }
        match self.package_generation(id, generation) {
            Err(error) => Err(error),
            Ok(_) => Ok(FileBatch::new(Self::copy_previews(&record.transactions))),
        }
    }

    /// Uses a token up, and gives the actions that it confirms.
    pub fn consume_confirmation(&mut self, token: &str) -> (out: Result<
        Vec<FileTransaction>,
        ExtensionError,
    >)
        requires
            old(self).wf(),
        ensures
            final(self).wf(),
            *final(self) == (ExtensionRuntime {
                file_confirmations: final(self).file_confirmations,
                ..*old(self)
            }),
            final(self).file_confirmations.map() == old(self).file_confirmations.map().remove(
                token@,
            ),
            match out {
                Ok(transactions) => old(self).file_confirmations.map().contains_key(token@)
                    && transactions == old(self).file_confirmations.map()[token@].transactions,
                Err(e) => !old(self).file_confirmations.map().contains_key(token@) && *final(self)
                    == *old(self) && e.is(
                    "invalid_confirmation"@,
                    "file confirmation token is unknown or already consumed"@,
                ),
            },
    {
        let key = key_of(token);
        match self.file_confirmations.remove(&key) {
            Some(record) => Ok(record.transactions),
            None => Err(
                ExtensionError::new(
                    "invalid_confirmation",
                    "file confirmation token is unknown or already consumed",
                ),
            ),
        }
    }

    /// Why one action is not applied with a confirmation; `None` where it may be. `digest` is that of
    /// the action.
    pub open spec fn apply_refusal(
        &self,
        transaction: FileTransaction,
        confirmation: FileConfirmation,
        digest: Seq<char>,
    ) -> Option<(Seq<char>, Seq<char>)> {
        let records = self.file_confirmations.map();
        let token = confirmation.token@;
        if token.len() == 0 || confirmation.transaction_id != transaction.confirmation_id
            || confirmation.extension.0@ != transaction.extension.0@ || confirmation.generation
            != transaction.generation || !confirmation.preview.same(transaction.preview)
            || confirmation.digest@ != digest {
            Some(
                (
                    "invalid_confirmation"@,
                    "file confirmation does not match the exact transaction"@,
                ),
            )
        } else if !records.contains_key(token) {
            Some(
                (
                    "invalid_confirmation"@,
                    "file confirmation token is unknown or already consumed"@,
                ),
            )
        } else if !records[token].confirmation.same(confirmation)
            || records[token].transactions@.len() != 1
            || records[token].transactions@[0].confirmation_id != transaction.confirmation_id {
            Some(
                (
                    "invalid_confirmation"@,
                    "file confirmation token does not match one exact transaction"@,
                ),
            )
        } else {
            None
        }
    }

    /// Checks that a confirmation permits exactly one action, whose digest is given. The token stays
    /// good.
    pub fn check_apply(
        &self,
        transaction: &FileTransaction,
        confirmation: &FileConfirmation,
        digest: &str,
    ) -> (out: Result<(), ExtensionError>)
        requires
            self.wf(),
        ensures
            out is Ok <==> self.apply_refusal(*transaction, *confirmation, digest@) is None,
            refused_by(out, self.apply_refusal(*transaction, *confirmation, digest@)),
    {
        if confirmation.token.as_str().is_empty() || confirmation.transaction_id
            != transaction.confirmation_id || !same_text(
            &confirmation.extension.0,
            &transaction.extension.0,
        ) || confirmation.generation != transaction.generation || !confirmation.preview.is(
            &transaction.preview,
        ) || !same_text(&confirmation.digest, digest) {
            return Err(
                ExtensionError::new(
                    "invalid_confirmation",
                    "file confirmation does not match the exact transaction",
                ),
            );
        }
        match self.file_confirmations.get(&confirmation.token) {
            None => Err(
                ExtensionError::new(
                    "invalid_confirmation",
                    "file confirmation token is unknown or already consumed",
                ),
            ),
            Some(record) => {
                if !record.confirmation.is(confirmation) || record.transactions.len() != 1
                    || record.transactions[0].confirmation_id != transaction.confirmation_id {
                    Err(
                        ExtensionError::new(
                            "invalid_confirmation",
                            "file confirmation token does not match one exact transaction",
                        ),
                    )
                } else {
                    Ok(())
                }
            },
        }
    }
}

/// A confirmation is good for the action that it was issued for, and for no action that differs from
/// it in its number, its package, its generation, its preview or its digest.
pub proof fn confirmation_is_for_its_action(
    before: ExtensionRuntime,
    after: ExtensionRuntime,
    transaction: FileTransaction,
    confirmation: FileConfirmation,
    other: FileTransaction,
)
    requires
        before.issues(
            after,
            seq![transaction],
            confirmation,
            actions_digest(seq![transaction]),
        ),
    ensures
        after.apply_refusal(transaction, confirmation, actions_digest(seq![transaction])) is None,
        after.apply_refusal(other, confirmation, actions_digest(seq![other])) is None ==> {
            &&& other.confirmation_id == transaction.confirmation_id
            &&& other.extension.0@ == transaction.extension.0@
            &&& other.generation == transaction.generation
            &&& other.preview.same(transaction.preview)
            &&& actions_digest(seq![other]) == actions_digest(seq![transaction])
        },
{
    let digest = actions_digest(seq![transaction]);
    reveal_strlit("bootty-file-");
    assert(seq![transaction][0] == transaction);
    let token = ExtensionRuntime::token_text(before.next_file_confirmation, digest);
    assert(token[0] == 'b');
    assert(confirmation.token@.len() > 0);
    let kept = after.file_confirmations.map()[token].confirmation;
    assert(kept.previews@ =~= confirmation.previews@);
    assert(kept.same(confirmation));
}

/// Another confirmation than the one that was issued under a token is refused, whichever field was
/// changed, and so is one under a token that was never issued.
pub proof fn changed_confirmation_is_refused(
    before: ExtensionRuntime,
    after: ExtensionRuntime,
    transactions: Seq<FileTransaction>,
    confirmation: FileConfirmation,
    digest: Seq<char>,
    changed: FileConfirmation,
    transaction: FileTransaction,
    other_digest: Seq<char>,
)
    requires
        before.issues(after, transactions, confirmation, digest),
        !changed.same(confirmation),
        changed.token@ == confirmation.token@ || !after.file_confirmations.map().contains_key(
            changed.token@,
        ),
    ensures
        after.apply_refusal(transaction, changed, other_digest) matches Some((code, _)) && code
            == "invalid_confirmation"@,
{
    let token = ExtensionRuntime::token_text(before.next_file_confirmation, digest);
    let kept = after.file_confirmations.map()[token].confirmation;
    if changed.token@ == confirmation.token@ && kept.same(changed) {
        assert(kept.previews@ =~= confirmation.previews@);
        assert(kept.preview == confirmation.preview);
        assert(same_previews(changed.previews@, confirmation.previews@)) by {
            assert(same_previews(kept.previews@, changed.previews@));
            assert forall|i: int| 0 <= i < changed.previews@.len() implies (
            #[trigger] changed.previews@[i]).same(confirmation.previews@[i]) by {
                assert(kept.previews@[i].same(changed.previews@[i]));
            }
        }
        assert(changed.same(confirmation));
    }
}

/// A token is good for one use: once it was consumed, nothing is applied or validated with it, neither
/// a batch nor a single action.
pub proof fn tokens_are_good_once(
    before: ExtensionRuntime,
    after: ExtensionRuntime,
    token: Seq<char>,
    id: Seq<char>,
    generation: u64,
    actions: Option<Vec<BatchEntry>>,
    expected: Json,
    transaction: FileTransaction,
    confirmation: FileConfirmation,
    digest: Seq<char>,
)
    requires
        after.file_confirmations.map() == before.file_confirmations.map().remove(token),
        confirmation.token@ == token,
    ensures
        after.batch_refusal(id, generation, actions, token) is Some,
        actions is Some ==> (after.batch_refusal(id, generation, actions, token) matches Some(
            (code, _),
        ) && code == "invalid_confirmation"@),
        after.expectation_refusal(id, generation, expected, token) is Some,
        after.apply_refusal(transaction, confirmation, digest) matches Some((code, _)) && code
            == "invalid_confirmation"@,
{
}

/// Why a file is not what it was when its action was prepared; `None` where it is.
pub open spec fn current_refusal(
    snapshot: FileSnapshot,
    parent: Result<Look, String>,
) -> Option<(Seq<char>, Seq<char>)> {
    match parent {
        Err(m) => Some(("file_conflict"@, "unable to open file: "@ + m@)),
        Ok(Look::Found(current)) => if snapshot.existed && current.identity == snapshot.identity
            && current.version == snapshot.version && current.bytes@ == snapshot.bytes@ {
            None
        } else {
            Some(("file_conflict"@, "file changed before batch apply"@))
        },
        Ok(Look::ReadFailed(m)) => Some(("file_conflict"@, m@)),
        Ok(Look::OpenFailed(m)) => Some(("file_conflict"@, m@)),
        Ok(Look::Missing(m)) => if snapshot.existed {
            Some(("file_conflict"@, m@))
        } else {
            None
        },
    }
}

fn optional_identity_same(a: Option<FileIdentity>, b: Option<FileIdentity>) -> (out: bool)
    ensures
        out == (a == b),
{
    match (a, b) {
        (Some(x), Some(y)) => x == y,
        (None, None) => true,
        _ => false,
    }
}

fn optional_version_same(a: Option<FileVersion>, b: Option<FileVersion>) -> (out: bool)
    ensures
        out == (a == b),
{
    match (a, b) {
        (Some(x), Some(y)) => x == y,
        (None, None) => true,
        _ => false,
    }
}

impl FileTransaction {
    /// What the action would do.
    pub fn preview(&self) -> (out: &FileTransactionPreview)
        ensures
            *out == self.preview,
    {
        &self.preview
    }

    /// Checks that the file is what it was when the action was prepared. `parent` is the error of
    /// opening its directory, or a look at the file.
    pub fn validate_current(&self, parent: Result<Look, String>) -> (out: Result<
        (),
        ExtensionError,
    >)
        ensures
            out is Ok <==> current_refusal(self.snapshot, parent) is None,
            refused_by(out, current_refusal(self.snapshot, parent)),
    {
        match parent {
            Err(m) => Err(file_conflict_because("unable to open file: ", &m)),
            Ok(Look::Found(current)) => {
                if self.snapshot.existed && optional_identity_same(
                    current.identity,
                    self.snapshot.identity,
                ) && optional_version_same(current.version, self.snapshot.version) && same_bytes(
                    &current.bytes,
                    &self.snapshot.bytes,
                ) {
                    Ok(())
                } else {
                    Err(file_conflict("file changed before batch apply"))
                }
            },
            Ok(Look::ReadFailed(m)) => Err(file_conflict(&m)),
            Ok(Look::OpenFailed(m)) => Err(file_conflict(&m)),
            Ok(Look::Missing(m)) => if self.snapshot.existed {
                Err(file_conflict(&m))
            } else {
                Ok(())
            },
        }
    }

    /// The file that a removal has to recognise, or why it cannot.
    pub fn removal_target(&self) -> (out: Result<(FileIdentity, FileVersion), ExtensionError>)
        ensures
            match out {
                Ok((identity, version)) => self.snapshot.identity == Some(identity)
                    && self.snapshot.version == Some(version),
                Err(e) => if self.snapshot.identity is None {
                    e.is("file_conflict"@, "remove transaction target is missing"@)
                } else {
                    self.snapshot.version is None && e.is(
                        "file_conflict"@,
                        "remove transaction version is missing"@,
                    )
                },
            },
    {
        match (self.snapshot.identity, self.snapshot.version) {
            (None, _) => Err(file_conflict("remove transaction target is missing")),
            (Some(_), None) => Err(file_conflict("remove transaction version is missing")),
            (Some(identity), Some(version)) => Ok((identity, version)),
        }
    }
}

/// How an applied action is undone.
#[derive(Debug)]
pub enum RollbackPlan {
    /// The old contents are written back over what was written.
    Restore,
    /// What was written is removed.
    Remove { identity: FileIdentity, version: FileVersion },
}

/// Whether a look at a file shows the state that an action left it in.
pub open spec fn still_as_applied(look: Look, post: FileSnapshot) -> bool {
    match look {
        Look::Found(current) => same_snapshot(current, post),
        Look::Missing(_) => !post.existed && post.identity is None && post.version is None
            && post.bytes@.len() == 0,
        _ => false,
    }
}

/// How an applied action is undone, or why it is not. A file that somebody changed since is left as
/// it is. `look` is what is there now, and `post` what the action left.
pub fn rollback(transaction: &FileTransaction, parent: FileIdentity, look: Look, post: &FileSnapshot) -> (out:
    Result<RollbackPlan, ExtensionError>)
    ensures
        match out {
            Ok(plan) => {
                &&& transaction.parent_identity == Some(parent)
                &&& still_as_applied(look, *post)
                &&& match plan {
                    RollbackPlan::Restore => transaction.snapshot.existed,
                    RollbackPlan::Remove { identity, version } => !transaction.snapshot.existed
                        && post.identity == Some(identity) && post.version == Some(version),
                }
            },
            Err(e) => if transaction.parent_identity != Some(parent) {
                e.is("file_conflict"@, "file parent changed before rollback"@)
            } else {
                match look {
                    Look::ReadFailed(m) => e.is(
                        "file_conflict"@,
                        "unable to read file for rollback: "@ + m@,
                    ),
                    Look::OpenFailed(m) => e.is(
                        "file_conflict"@,
                        "unable to inspect file for rollback: "@ + m@,
                    ),
                    _ => if !still_as_applied(look, *post) {
                        e.is(
                            "file_conflict"@,
                            "file changed concurrently; preserving current post-state"@,
                        )
                    } else if post.identity is None {
                        !transaction.snapshot.existed && e.is(
                            "file_conflict"@,
                            "rollback post-state identity is missing"@,
                        )
                    } else {
                        !transaction.snapshot.existed && post.version is None && e.is(
                            "file_conflict"@,
                            "rollback post-state version is missing"@,
                        )
                    },
                }
            },
        },
{
    let same_parent = match transaction.parent_identity {
        Some(known) => known == parent,
        None => false,
    };
    if !same_parent {
        return Err(file_conflict("file parent changed before rollback"));
    }
    let unchanged = match look {
        Look::ReadFailed(m) => {
            return Err(file_conflict_because("unable to read file for rollback: ", &m));
        },
        Look::OpenFailed(m) => {
            return Err(file_conflict_because("unable to inspect file for rollback: ", &m));
        },
        Look::Missing(_) => !post.existed && post.identity.is_none() && post.version.is_none()
            && post.bytes.len() == 0,
        Look::Found(current) => snapshot_matches(&current, post),
    };
    if !unchanged {
        return Err(file_conflict("file changed concurrently; preserving current post-state"));
    }
    if transaction.snapshot.existed {
        return Ok(RollbackPlan::Restore);
    }
    match (post.identity, post.version) {
        (None, _) => Err(file_conflict("rollback post-state identity is missing")),
        (Some(_), None) => Err(file_conflict("rollback post-state version is missing")),
        (Some(identity), Some(version)) => Ok(RollbackPlan::Remove { identity, version }),
    }
}

/// What a batch waits for.
#[derive(Clone, Copy, Debug, PartialEq, Eq, Structural)]
pub enum BatchPhase {
    /// The action with the given number is to be checked against its file.
    Validate(usize),
    /// The token is to be used up.
    Consume,
    /// The action with the given number is to be applied.
    Apply(usize),
    /// The action with the given number is to be undone.
    RollBack(usize),
    Finished,
}

/// A batch of confirmed actions on its way.
#[derive(Debug)]
pub struct FileBatch {
    /// What the actions do.
    pub previews: Vec<FileTransactionPreview>,
    pub phase: BatchPhase,
    /// What stopped the batch.
    pub original: Option<ExtensionError>,
    /// What could not be undone, last action first.
    pub rollback_errors: Vec<FileBatchRollbackError>,
    /// Whether an action was applied or tried.
    pub applying: bool,
}

/// Whether an error of undoing an action is recorded as it should be.
pub open spec fn rollback_error_is(
    recorded: FileBatchRollbackError,
    path: Seq<char>,
    error: ExtensionError,
) -> bool {
    &&& recorded.path@ == path
    &&& recorded.code@ == error.code@
    &&& recorded.message@ == error.message@
    &&& recorded.conflict == (error.code@ == "file_conflict"@)
}

impl FileBatch {
    /// The number of actions.
    pub open spec fn size(self) -> nat {
        self.previews@.len()
    }

    /// The phase after the first `n` actions were checked.
    pub open spec fn checked(self, n: int) -> BatchPhase {
        if n < self.size() {
            BatchPhase::Validate(n as usize)
        } else {
            BatchPhase::Consume
        }
    }

    /// The phase after the first `n` actions were applied.
    pub open spec fn applied(self, n: int) -> BatchPhase {
        if n < self.size() {
            BatchPhase::Apply(n as usize)
        } else {
            BatchPhase::Finished
        }
    }

    /// The phase in which the first `n` actions are still to be undone.
    pub open spec fn undoing(n: int) -> BatchPhase {
        if n > 0 {
            BatchPhase::RollBack((n - 1) as usize)
        } else {
            BatchPhase::Finished
        }
    }

    /// The numbers in the phase are those of actions.
    pub open spec fn wf(self) -> bool {
        match self.phase {
            BatchPhase::Validate(i) => i < self.size() && !self.applying,
            BatchPhase::Consume => !self.applying,
            BatchPhase::Apply(i) => i < self.size() && self.applying,
            BatchPhase::RollBack(i) => i < self.size() && self.applying && self.original is Some,
            BatchPhase::Finished => true,
        }
    }

    /// Whether this is a batch of actions of which nothing was done so far.
    pub open spec fn begins(self, previews: Seq<FileTransactionPreview>) -> bool {
        &&& self.wf()
        &&& self.previews@ == previews
        &&& self.phase == self.checked(0)
        &&& self.original is None
        &&& self.rollback_errors@.len() == 0
        &&& !self.applying
    }

    /// A batch of actions that do what the previews tell.
    pub fn new(previews: Vec<FileTransactionPreview>) -> (out: Self)
        ensures
            out.begins(previews@),
            out.previews == previews,
    {
        let phase = if previews.len() > 0 {
            BatchPhase::Validate(0)
        } else {
            BatchPhase::Consume
        };
        FileBatch {
            previews,
            phase,
            original: None,
            rollback_errors: Vec::new(),
            applying: false,
        }
    }

    /// Whether `out` is this batch after the result of the awaited action.
    pub open spec fn advanced(self, result: Result<(), ExtensionError>, out: Self) -> bool {
        match (self.phase, result) {
            (BatchPhase::Validate(i), Ok(_)) => out == (FileBatch {
                phase: self.checked(i + 1),
                ..self
            }),
            (BatchPhase::Consume, Ok(_)) => out == (FileBatch {
                phase: self.applied(0),
                applying: true,
                ..self
            }),
            (BatchPhase::Validate(_), Err(error)) | (BatchPhase::Consume, Err(error)) => out == (
            FileBatch { phase: BatchPhase::Finished, original: Some(error), ..self }),
            (BatchPhase::Apply(i), Ok(_)) => out == (FileBatch {
                phase: self.applied(i + 1),
                ..self
            }),
            (BatchPhase::Apply(i), Err(error)) => out == (FileBatch {
                phase: Self::undoing(i as int),
                original: Some(error),
                ..self
            }),
            (BatchPhase::RollBack(i), Ok(_)) => out == (FileBatch {
                phase: Self::undoing(i as int),
                ..self
            }),
            (BatchPhase::RollBack(i), Err(error)) => {
                &&& out == (FileBatch {
                    phase: Self::undoing(i as int),
                    rollback_errors: out.rollback_errors,
                    ..self
                })
                &&& out.rollback_errors@.len() == self.rollback_errors@.len() + 1
                &&& out.rollback_errors@.drop_last() == self.rollback_errors@
                &&& rollback_error_is(
                    out.rollback_errors@.last(),
                    self.previews@[i as int].path@,
                    error,
                )
            },
            (BatchPhase::Finished, _) => out == self,
        }
    }

    /// Takes the result of the awaited action.
    pub fn advance(self, result: Result<(), ExtensionError>) -> (out: Self)
        requires
            self.wf(),
        ensures
            out.wf(),
            self.advanced(result, out),
    {
        let mut next = self;
        let count = next.previews.len();
        match next.phase {
            BatchPhase::Validate(i) => match result {
                Ok(()) => {
                    next.phase = if i + 1 < count {
                        BatchPhase::Validate(i + 1)
                    } else {
                        BatchPhase::Consume
                    };
                    next
                },
                Err(error) => {
                    next.phase = BatchPhase::Finished;
                    next.original = Some(error);
                    next
                },
            },
            BatchPhase::Consume => match result {
                Ok(()) => {
                    next.applying = true;
                    next.phase = if count > 0 {
                        BatchPhase::Apply(0)
                    } else {
                        BatchPhase::Finished
                    };
                    next
                },
                Err(error) => {
                    next.phase = BatchPhase::Finished;
                    next.original = Some(error);
                    next
                },
            },
            BatchPhase::Apply(i) => match result {
                Ok(()) => {
                    next.phase = if i + 1 < count {
                        BatchPhase::Apply(i + 1)
                    } else {
                        BatchPhase::Finished
                    };
                    next
                },
                Err(error) => {
                    next.phase = if i > 0 {
                        BatchPhase::RollBack(i - 1)
                    } else {
                        BatchPhase::Finished
                    };
                    next.original = Some(error);
                    next
                },
            },
            BatchPhase::RollBack(i) => {
                match result {
                    Ok(()) => {},
                    Err(error) => {
                        let conflict = same_text(&error.code, "file_conflict");
                        let path = next.previews[i].path.clone();
                        let ghost before = next.rollback_errors@;
                        next.rollback_errors.push(
                            FileBatchRollbackError {
                                path,
                                code: error.code,
                                message: error.message,
                                conflict,
                            },
                        );
                        assert(next.rollback_errors@.drop_last() =~= before);
                    },
                }
                next.phase = if i > 0 {
                    BatchPhase::RollBack(i - 1)
                } else {
                    BatchPhase::Finished
                };
                next
            },
            BatchPhase::Finished => next,
        }
    }

    /// What a batch came to: `None` while it goes on. One that succeeded gives the previews of its
    /// actions. A batch that was stopped before anything was
    /// applied gives the error that stopped it; one that was stopped later tells what could not be
    /// undone.
    pub fn finish(self) -> (out: Option<Result<Vec<FileTransactionPreview>, ExtensionError>>)
        ensures
            !(self.phase is Finished) ==> out is None,
            self.phase is Finished ==> match self.original {
                None => out == Some(
                    Ok::<Vec<FileTransactionPreview>, ExtensionError>(self.previews),
                ),
                Some(error) => if !self.applying {
                    out == Some(Err::<Vec<FileTransactionPreview>, ExtensionError>(error))
                } else {
                    out matches Some(Err(e)) && e.code@ == "file_batch_apply_failed"@ && e.message@
                        == ExtensionError::batch_message(
                        error.code@,
                        error.message@,
                        self.rollback_errors@.len(),
                    ) && (e.details matches Some(details) && details.original_code@ == error.code@
                        && details.original_message@ == error.message@ && details.rolled_back == (
                    self.rollback_errors@.len() == 0) && details.rollback_errors
                        == self.rollback_errors)
                },
            },
    {
        match self.phase {
            BatchPhase::Finished => match self.original {
                None => Some(Ok(self.previews)),
                Some(error) => if self.applying {
                    Some(Err(ExtensionError::file_batch_failure(error, self.rollback_errors)))
                } else {
                    Some(Err(error))
                },
            },
            _ => None,
        }
    }
}

/// When an action fails, every action that was applied before it is undone, the last one first.
pub proof fn failed_batch_is_undone(batch: FileBatch, error: ExtensionError, out: FileBatch)
    requires
        batch.wf(),
        batch.phase is Apply,
        batch.advanced(Err(error), out),
    ensures
        batch.phase->Apply_0 > 0 ==> out.phase == BatchPhase::RollBack(
            (batch.phase->Apply_0 - 1) as usize,
        ),
        batch.phase->Apply_0 == 0 ==> out.phase is Finished,
        out.original == Some(error),
{
}

/// Undoing goes on to the action before, whatever came of the last, and ends after the first.
pub proof fn undoing_goes_back(batch: FileBatch, result: Result<(), ExtensionError>, out: FileBatch)
    requires
        batch.wf(),
        batch.phase is RollBack,
        batch.advanced(result, out),
    ensures
        batch.phase->RollBack_0 > 0 ==> out.phase == BatchPhase::RollBack(
            (batch.phase->RollBack_0 - 1) as usize,
        ),
        batch.phase->RollBack_0 == 0 ==> out.phase is Finished,
        out.original == batch.original,
        out.rollback_errors@.len() == batch.rollback_errors@.len() + (if result is Err {
            1int
        } else {
            0int
        }),
{
}

/// How far a batch of `size` actions has come after `taken` results, all of which were good.
pub open spec fn batch_stage(size: nat, taken: int) -> BatchPhase {
    if taken < size {
        BatchPhase::Validate(taken as usize)
    } else if taken == size {
        BatchPhase::Consume
    } else if taken <= 2 * size {
        BatchPhase::Apply((taken - size - 1) as usize)
    } else {
        BatchPhase::Finished
    }
}

/// Whether a batch goes through stages, each after a result.
pub open spec fn batch_runs(
    stages: Seq<FileBatch>,
    results: Seq<Result<(), ExtensionError>>,
) -> bool {
    &&& stages.len() == results.len() + 1
    &&& forall|i: int|
        0 <= i < results.len() ==> stages[i].advanced(#[trigger] results[i], stages[i + 1])
}

proof fn good_so_far(
    stages: Seq<FileBatch>,
    results: Seq<Result<(), ExtensionError>>,
    previews: Seq<FileTransactionPreview>,
    i: int,
)
    requires
        batch_runs(stages, results),
        stages[0].begins(previews),
        0 <= i <= results.len(),
        previews.len() <= usize::MAX,
    ensures
        stages[i].previews@ == previews,
        stages[i].original is None ==> stages[i].phase == batch_stage(previews.len(), i),
        stages[i].original is None ==> forall|j: int|
            0 <= j < i && j < 2 * previews.len() + 1 ==> #[trigger] results[j] is Ok,
    decreases i,
{
    if i > 0 {
        good_so_far(stages, results, previews, i - 1);
        assert(stages[i - 1].advanced(results[i - 1], stages[i]));
        assert(stages[i - 1].original is Some ==> stages[i].original is Some);
        if stages[i].original is None {
            assert(stages[i - 1].original is None);
            assert forall|j: int|
                0 <= j < i && j < 2 * previews.len() + 1 implies #[trigger] results[j] is Ok by {
                if j == i - 1 {
                    assert(!(stages[i - 1].phase is Finished));
                }
            }
        }
    }
}

/// A batch that succeeded was checked against all its files before its token was used up, and then
/// every one of its actions was applied: it gives their previews, all of them and in their order.
pub proof fn batch_success_is_complete(
    stages: Seq<FileBatch>,
    results: Seq<Result<(), ExtensionError>>,
    previews: Seq<FileTransactionPreview>,
)
    requires
        batch_runs(stages, results),
        stages[0].begins(previews),
        previews.len() <= usize::MAX,
        stages.last().phase is Finished,
        stages.last().original is None,
    ensures
        stages.last().previews@ == previews,
        results.len() >= 2 * previews.len() + 1,
        forall|i: int|
            0 <= i <= 2 * previews.len() ==> (#[trigger] results[i]) is Ok && stages[i].phase
                == batch_stage(previews.len(), i),
{
    let n = results.len() as int;
    good_so_far(stages, results, previews, n);
    assert forall|i: int| 0 <= i <= 2 * previews.len() implies (#[trigger] results[i]) is Ok
        && stages[i].phase == batch_stage(previews.len(), i) by {
        good_so_far(stages, results, previews, i);
        if stages[i].original is Some {
            trouble_stays(stages, results, i, n);
        }
    }
}

proof fn trouble_stays(
    stages: Seq<FileBatch>,
    results: Seq<Result<(), ExtensionError>>,
    from: int,
    to: int,
)
    requires
        batch_runs(stages, results),
        0 <= from <= to <= results.len(),
        stages[from].original is Some,
    ensures
        stages[to].original is Some,
    decreases to - from,
{
    if from < to {
        assert(stages[from].advanced(results[from], stages[from + 1]));
        trouble_stays(stages, results, from + 1, to);
    }
}

/// What a path leads to, among files by their paths.
pub open spec fn file_at(disk: Map<Seq<char>, FileSnapshot>, path: Seq<char>) -> Option<FileSnapshot> {
    if disk.contains_key(path) {
        Some(disk[path])
    } else {
        None
    }
}

/// Whether a commit of an action succeeded and led from some files to others.
pub open spec fn is_written(
    transaction: FileTransaction,
    before: Map<Seq<char>, FileSnapshot>,
    after: Map<Seq<char>, FileSnapshot>,
) -> bool {
    let path = transaction.preview.path@;
    exists|start: FileCommit, files: Seq<Files>, events: Seq<FileEvent>|
        {
            &&& is_start(
                start,
                transaction.parent_identity,
                transaction.snapshot,
                transaction.contents,
            )
            &&& #[trigger] start.goes(files, events)
            &&& start.run(events).result is Some
            &&& files[0].target == file_at(before, path)
            &&& files.last().target == file_at(after, path)
        }
}

/// Whether a removal of the file of an action succeeded and led from some files to others.
pub open spec fn is_removed(
    transaction: FileTransaction,
    before: Map<Seq<char>, FileSnapshot>,
    after: Map<Seq<char>, FileSnapshot>,
) -> bool {
    let path = transaction.preview.path@;
    exists|start: FileRemoval, files: Seq<RemovalFiles>, events: Seq<RemovalEvent>|
        {
            &&& transaction.snapshot.identity == Some(start.identity)
            &&& transaction.snapshot.version == Some(start.version)
            &&& start.contents@ == transaction.snapshot.bytes@
            &&& start.phase is MoveAside
            &&& #[trigger] start.goes(files, events)
            &&& start.run(events).phase == RemovalPhase::Finished(true)
            &&& files[0].name == file_at(before, path)
            &&& files.last().name == file_at(after, path)
        }
}

/// Whether an action was applied and led from some files to others: what its path leads to is the
/// doing of the commit or the removal, and every other path leads to what it did.
pub open spec fn is_applied(
    transaction: FileTransaction,
    before: Map<Seq<char>, FileSnapshot>,
    after: Map<Seq<char>, FileSnapshot>,
) -> bool {
    &&& match transaction.operation {
        FileTransactionOperation::Write => is_written(transaction, before, after),
        FileTransactionOperation::Remove => is_removed(transaction, before, after),
    }
    &&& forall|path: Seq<char>|
        path != transaction.preview.path@ ==> #[trigger] file_at(after, path) == file_at(
            before,
            path,
        )
}

/// Whether a path leads to what an action leaves there: a file with the contents that it writes, or
/// nothing.
pub open spec fn is_settled(
    transaction: FileTransaction,
    disk: Map<Seq<char>, FileSnapshot>,
) -> bool {
    match transaction.operation {
        FileTransactionOperation::Write => file_at(disk, transaction.preview.path@) matches Some(
            file,
        ) && file.existed && file.bytes@ == transaction.contents@,
        FileTransactionOperation::Remove => file_at(disk, transaction.preview.path@) is None,
    }
}

proof fn applied_action_is_settled(
    transaction: FileTransaction,
    before: Map<Seq<char>, FileSnapshot>,
    after: Map<Seq<char>, FileSnapshot>,
)
    requires
        is_applied(transaction, before, after),
    ensures
        is_settled(transaction, after),
{
    let path = transaction.preview.path@;
    match transaction.operation {
        FileTransactionOperation::Write => {
            let (start, files, events) = choose|
                start: FileCommit,
                files: Seq<Files>,
                events: Seq<FileEvent>,
            |
                {
                    &&& is_start(
                        start,
                        transaction.parent_identity,
                        transaction.snapshot,
                        transaction.contents,
                    )
                    &&& #[trigger] start.goes(files, events)
                    &&& start.run(events).result is Some
                    &&& files[0].target == file_at(before, path)
                    &&& files.last().target == file_at(after, path)
                };
            finished_commit_leaves_the_contents(start, files, events);
        },
        FileTransactionOperation::Remove => {
            let (start, files, events) = choose|
                start: FileRemoval,
                files: Seq<RemovalFiles>,
                events: Seq<RemovalEvent>,
            |
                {
                    &&& transaction.snapshot.identity == Some(start.identity)
                    &&& transaction.snapshot.version == Some(start.version)
                    &&& start.contents@ == transaction.snapshot.bytes@
                    &&& start.phase is MoveAside
                    &&& #[trigger] start.goes(files, events)
                    &&& start.run(events).phase == RemovalPhase::Finished(true)
                    &&& files[0].name == file_at(before, path)
                    &&& files.last().name == file_at(after, path)
                };
            removed_file_is_gone(start, files, events);
        },
    }
}

/// Whether the steps of a batch lead from files to files: an action that is applied does what it says,
/// and nothing else touches a file.
pub open spec fn batch_works(
    stages: Seq<FileBatch>,
    results: Seq<Result<(), ExtensionError>>,
    transactions: Seq<FileTransaction>,
    disks: Seq<Map<Seq<char>, FileSnapshot>>,
) -> bool {
    &&& disks.len() == results.len() + 1
    &&& forall|k: int|
        0 <= k < results.len() ==> match (stages[k].phase, #[trigger] results[k]) {
            (BatchPhase::Apply(i), Ok(_)) => is_applied(
                transactions[i as int],
                disks[k],
                disks[k + 1],
            ),
            _ => (stages[k].phase is Apply || stages[k].phase is RollBack) || disks[k + 1]
                == disks[k],
        }
}

proof fn settled_stays(
    stages: Seq<FileBatch>,
    results: Seq<Result<(), ExtensionError>>,
    transactions: Seq<FileTransaction>,
    disks: Seq<Map<Seq<char>, FileSnapshot>>,
    i: int,
    k: int,
)
    requires
        batch_runs(stages, results),
        batch_works(stages, results, transactions, disks),
        stages[0].begins(transactions.map_values(|t: FileTransaction| t.preview)),
        stages.last().phase is Finished,
        stages.last().original is None,
        transactions.len() <= usize::MAX,
        forall|a: int, b: int|
            0 <= a < b < transactions.len() ==> (#[trigger] transactions[a]).preview.path@ != (
            #[trigger] transactions[b]).preview.path@,
        0 <= i < transactions.len(),
        transactions.len() + 1 + i < k <= results.len(),
    ensures
        is_settled(transactions[i], disks[k]),
    decreases k,
{
    let previews = transactions.map_values(|t: FileTransaction| t.preview);
    let n = transactions.len() as int;
    let last = k - 1;
    good_so_far(stages, results, previews, last);
    if stages[last].original is Some {
        trouble_stays(stages, results, last, results.len() as int);
    }
    good_so_far(stages, results, previews, k);
    if stages[k].original is Some {
        trouble_stays(stages, results, k, results.len() as int);
    }
    assert(stages[last].phase == batch_stage(n as nat, last));
    let step = results[last];
    if last == n + 1 + i {
        assert(stages[last].phase == BatchPhase::Apply(i as usize));
        assert(results[last] is Ok);
        applied_action_is_settled(transactions[i], disks[last], disks[k]);
    } else {
        settled_stays(stages, results, transactions, disks, i, last);
        if last <= 2 * n {
            let j = last - n - 1;
            assert(stages[last].phase == BatchPhase::Apply(j as usize));
            assert(results[last] is Ok);
            assert(is_applied(transactions[j], disks[last], disks[k]));
            assert(transactions[i].preview.path@ != transactions[j].preview.path@);
            assert(file_at(disks[k], transactions[i].preview.path@) == file_at(
                disks[last],
                transactions[i].preview.path@,
            ));
        } else {
            assert(stages[last].phase is Finished);
            assert(disks[k] == disks[last]);
        }
    }
}

/// After a batch that ended well, every file that it wrote holds the confirmed contents, and every file
/// that it removed is gone. Its actions are on paths of their own, and nobody else touches the files.
pub proof fn batch_leaves_what_was_confirmed(
    stages: Seq<FileBatch>,
    results: Seq<Result<(), ExtensionError>>,
    transactions: Seq<FileTransaction>,
    disks: Seq<Map<Seq<char>, FileSnapshot>>,
)
    requires
        batch_runs(stages, results),
        batch_works(stages, results, transactions, disks),
        stages[0].begins(transactions.map_values(|t: FileTransaction| t.preview)),
        stages.last().phase is Finished,
        stages.last().original is None,
        transactions.len() <= usize::MAX,
        forall|a: int, b: int|
            0 <= a < b < transactions.len() ==> (#[trigger] transactions[a]).preview.path@ != (
            #[trigger] transactions[b]).preview.path@,
    ensures
        forall|i: int|
            0 <= i < transactions.len() ==> is_settled(#[trigger] transactions[i], disks.last()),
        stages.last().previews@ == transactions.map_values(|t: FileTransaction| t.preview),
{
    let previews = transactions.map_values(|t: FileTransaction| t.preview);
    batch_success_is_complete(stages, results, previews);
    assert forall|i: int| 0 <= i < transactions.len() implies is_settled(
        #[trigger] transactions[i],
        disks.last(),
    ) by {
        settled_stays(stages, results, transactions, disks, i, results.len() as int);
    }
}

/// What a single action waits for.
#[derive(Clone, Copy, Debug, PartialEq, Eq, Structural)]
pub enum ApplyPhase {
    /// The action is to be checked against its file.
    Validate,
    /// The token is to be used up.
    Consume,
    /// The action is to be applied.
    Commit,
    Finished,
}

/// A single confirmed action on its way.
#[derive(Debug)]
pub struct FileApply {
    pub preview: FileTransactionPreview,
    pub phase: ApplyPhase,
    /// What stopped the action.
    pub failure: Option<ExtensionError>,
}

impl FileTransaction {
    /// Begins to apply this action, where a confirmation permits exactly it.
    pub fn apply(&self, runtime: &ExtensionRuntime, confirmation: &FileConfirmation) -> (out: Result<
        FileApply,
        ExtensionError,
    >)
        requires
            runtime.wf(),
        ensures
            out is Ok <==> runtime.apply_refusal(
                *self,
                *confirmation,
                actions_digest(seq![*self]),
            ) is None,
            refused_by(
                out,
                runtime.apply_refusal(*self, *confirmation, actions_digest(seq![*self])),
            ),
            out matches Ok(apply) ==> apply.begins(self.preview),
    {
        let digest = single_transaction_digest(self);
        self.apply_with_digest(runtime, confirmation, &digest)
    }

    /// Begins to apply this action, whose digest is given, where a confirmation permits exactly it.
    pub fn apply_with_digest(
        &self,
        runtime: &ExtensionRuntime,
        confirmation: &FileConfirmation,
        digest: &str,
    ) -> (out: Result<FileApply, ExtensionError>)
        requires
            runtime.wf(),
        ensures
            out is Ok <==> runtime.apply_refusal(*self, *confirmation, digest@) is None,
            refused_by(out, runtime.apply_refusal(*self, *confirmation, digest@)),
            out matches Ok(apply) ==> apply.begins(self.preview),
    {
        match runtime.check_apply(self, confirmation, digest) {
            Err(error) => Err(error),
            Ok(()) => Ok(
                FileApply {
                    preview: self.preview.copy(),
                    phase: ApplyPhase::Validate,
                    failure: None,
                },
            ),
        }
    }
}

impl FileApply {
    /// Whether this is an action of which nothing was done so far.
    pub open spec fn begins(self, preview: FileTransactionPreview) -> bool {
        self.preview == preview && self.phase is Validate && self.failure is None
    }

    /// This action after the result of what it waited for. What goes wrong ends it.
    pub open spec fn next(self, result: Result<(), ExtensionError>) -> Self {
        match (self.phase, result) {
            (ApplyPhase::Finished, _) => self,
            (_, Err(error)) => FileApply {
                phase: ApplyPhase::Finished,
                failure: Some(error),
                ..self
            },
            (ApplyPhase::Validate, Ok(_)) => FileApply { phase: ApplyPhase::Consume, ..self },
            (ApplyPhase::Consume, Ok(_)) => FileApply { phase: ApplyPhase::Commit, ..self },
            (ApplyPhase::Commit, Ok(_)) => FileApply { phase: ApplyPhase::Finished, ..self },
        }
    }

    /// Takes the result of what the action waited for.
    pub fn advance(self, result: Result<(), ExtensionError>) -> (out: Self)
        ensures
            out == self.next(result),
    {
        let mut next = self;
        match next.phase {
            ApplyPhase::Finished => next,
            phase => match result {
                Err(error) => {
                    next.phase = ApplyPhase::Finished;
                    next.failure = Some(error);
                    next
                },
                Ok(()) => {
                    next.phase = match phase {
                        ApplyPhase::Validate => ApplyPhase::Consume,
                        ApplyPhase::Consume => ApplyPhase::Commit,
                        _ => ApplyPhase::Finished,
                    };
                    next
                },
            },
        }
    }

    /// What the action came to: its preview, or what stopped it; `None` while it goes on.
    pub fn finish(self) -> (out: Option<Result<FileTransactionPreview, ExtensionError>>)
        ensures
            !(self.phase is Finished) ==> out is None,
            self.phase is Finished ==> match self.failure {
                None => out == Some(
                    Ok::<FileTransactionPreview, ExtensionError>(self.preview),
                ),
                Some(error) => out == Some(
                    Err::<FileTransactionPreview, ExtensionError>(error),
                ),
            },
    {
        match self.phase {
            ApplyPhase::Finished => match self.failure {
                None => Some(Ok(self.preview)),
                Some(error) => Some(Err(error)),
            },
            _ => None,
        }
    }

    /// This action after a sequence of results.
    pub open spec fn run(self, results: Seq<Result<(), ExtensionError>>) -> Self
        decreases results.len(),
    {
        if results.len() == 0 {
            self
        } else {
            self.run(results.drop_last()).next(results.last())
        }
    }
}

/// An action that succeeded was checked against its file, then used up its token, and then was
/// applied; it gives its preview. One whose file is not what was previewed ends there, with its token
/// still good.
pub proof fn apply_goes_in_order(
    start: FileApply,
    preview: FileTransactionPreview,
    results: Seq<Result<(), ExtensionError>>,
)
    requires
        start.begins(preview),
    ensures
        start.run(results).preview == preview,
        start.run(results).phase is Finished && start.run(results).failure is None ==> {
            &&& results.len() >= 3
            &&& results[0] is Ok
            &&& results[1] is Ok
            &&& results[2] is Ok
        },
        results.len() > 0 && results[0] is Err ==> start.run(results).phase is Finished && start.run(
            results,
        ).failure == Some(results[0]->Err_0),
{
    apply_stages(start, preview, results);
}

proof fn apply_stages(
    start: FileApply,
    preview: FileTransactionPreview,
    results: Seq<Result<(), ExtensionError>>,
)
    requires
        start.begins(preview),
    ensures
        start.run(results).preview == preview,
        start.run(results).failure is None ==> {
            &&& results.len() == 0 ==> start.run(results).phase is Validate
            &&& results.len() == 1 ==> start.run(results).phase is Consume
            &&& results.len() == 2 ==> start.run(results).phase is Commit
            &&& results.len() >= 3 ==> start.run(results).phase is Finished
            &&& forall|i: int| 0 <= i < results.len() && i < 3 ==> #[trigger] results[i] is Ok
        },
        start.run(results).failure is Some ==> start.run(results).phase is Finished,
        results.len() > 0 && results[0] is Err ==> start.run(results).failure == Some(
            results[0]->Err_0,
        ),
    decreases results.len(),
{
    if results.len() > 0 {
        let before = results.drop_last();
        apply_stages(start, preview, before);
        if start.run(results).failure is None {
            assert forall|i: int| 0 <= i < results.len() && i < 3 implies #[trigger] results[i]
                is Ok by {
                if i < before.len() {
                    assert(before[i] == results[i]);
                } else {
                    assert(results[i] == results.last());
                }
            }
        }
        if before.len() > 0 {
            assert(before[0] == results[0]);
        }
    }
}

/// A file that is not what was previewed is refused before anything is done to it: another file, the
/// same one with other contents or other times, or one that has come or gone.
pub proof fn changed_file_is_refused(snapshot: FileSnapshot, look: Look)
    requires
        match look {
            Look::Found(current) => !snapshot.existed || current.identity != snapshot.identity
                || current.version != snapshot.version || current.bytes@ != snapshot.bytes@,
            Look::Missing(_) => snapshot.existed,
            Look::OpenFailed(_) | Look::ReadFailed(_) => true,
        },
    ensures
        current_refusal(snapshot, Ok(look)) matches Some((code, _)) && code == "file_conflict"@,
{
}

/// The bytes under a name; none where there is no file.
pub open spec fn bytes_of(file: Option<FileSnapshot>) -> Seq<u8> {
    match file {
        Some(file) => file.bytes@,
        None => Seq::empty(),
    }
}

/// The preview of a write foretells what the write does. Where the action finds the file as it was
/// looked at and is applied, the preview said how many bytes the file had and has now, that something
/// changes exactly where the bytes before differ from those after, and that something is lost exactly
/// where there was a file whose bytes are not there any more.
pub proof fn preview_foretells_the_write(
    look: TargetLook,
    path: Seq<char>,
    preview: FileTransactionPreview,
    start: FileCommit,
    files: Seq<Files>,
    events: Seq<FileEvent>,
)
    requires
        look is Missing || look is Found,
        look matches TargetLook::Found(found) ==> found.existed,
        looked_at(look, start.expected),
        preview_of(preview, path, start.expected, start.contents@),
        is_start(start, start.expected_parent, start.expected, start.contents),
        start.goes(files, events),
        start.run(events).result is Some,
        match look {
            TargetLook::Found(found) => files[0].target == Some(found),
            _ => files[0].target is None,
        },
    ensures
        ({
            let before = bytes_of(files[0].target);
            let after = bytes_of(files.last().target);
            &&& files.last().target is Some
            &&& preview.path@ == path
            &&& preview.existed <==> files[0].target is Some
            &&& preview.before_bytes == before.len()
            &&& preview.after_bytes == after.len()
            &&& preview.changed <==> before != after
            &&& preview.destructive <==> files[0].target is Some && before != after
        }),
{
    finished_commit_leaves_the_contents(start, files, events);
    assert(start.expected.bytes@ =~= bytes_of(files[0].target));
}

/// Whether an entry asks for what an action does: on the same path, and to write the same bytes, or to
/// remove.
pub open spec fn asks_for(entry: BatchEntry, transaction: FileTransaction) -> bool {
    match entry {
        BatchEntry::NotObject => false,
        BatchEntry::Object { path, operation, content } => {
            &&& path matches Some(p) && p@ == transaction.preview.path@
            &&& transaction.operation is Remove ==> (operation matches Some(name) && name@
                == "remove"@)
            &&& transaction.operation is Write ==> {
                &&& operation matches Some(name) ==> name@ == "write"@
                &&& match content {
                    EntryContent::Missing => false,
                    EntryContent::Text(s) => encode_utf8(s@) == transaction.contents@,
                    EntryContent::Value(s) => json_reading(s@) matches Ok(compact) && encode_utf8(
                        compact,
                    ) == transaction.contents@,
                }
            }
        },
    }
}

/// An entry is taken exactly where it asks for what was confirmed.
pub proof fn entries_ask_for_what_was_confirmed(entry: BatchEntry, transaction: FileTransaction)
    ensures
        action_refusal(entry, transaction) is None <==> asks_for(entry, transaction),
{
    reveal_strlit("write");
    reveal_strlit("remove");
    assert("write"@.len() == 5);
    assert("remove"@.len() == 6);
    match entry {
        BatchEntry::Object { path, operation, content } => {
            if operation is None {
                assert(named_operation(operation) == "write"@);
            }
            match content {
                EntryContent::Value(s) => {
                    assert(content_bytes(content) == match json_reading(s@) {
                        Ok(compact) => Some(Ok::<Seq<u8>, Seq<char>>(encode_utf8(compact))),
                        Err(message) => Some(Err::<Seq<u8>, Seq<char>>(message)),
                    });
                },
                _ => {},
            }
        },
        _ => {},
    }
}

proof fn all_entries_are_asked(
    entries: Seq<BatchEntry>,
    transactions: Seq<FileTransaction>,
    from: int,
)
    requires
        0 <= from <= entries.len(),
    ensures
        actions_refusal(entries, transactions, from) is None <==> forall|i: int|
            from <= i < entries.len() ==> asks_for(#[trigger] entries[i], transactions[i]),
    decreases entries.len() - from,
{
    if from < entries.len() {
        entries_ask_for_what_was_confirmed(entries[from], transactions[from]);
        all_entries_are_asked(entries, transactions, from + 1);
        if actions_refusal(entries, transactions, from) is None {
            assert forall|i: int| from <= i < entries.len() implies asks_for(
                #[trigger] entries[i],
                transactions[i],
            ) by {}
        }
        if forall|i: int|
            from <= i < entries.len() ==> asks_for(#[trigger] entries[i], transactions[i]) {
            assert(asks_for(entries[from], transactions[from]));
        }
    }
}

/// A batch is let through exactly where its token is known and was issued to the package that brings it,
/// there is an entry for each confirmed action and no other, each asks for what was confirmed, and the
/// package may act.
pub proof fn batches_are_as_confirmed(
    host: ExtensionRuntime,
    id: Seq<char>,
    generation: u64,
    entries: Vec<BatchEntry>,
    token: Seq<char>,
)
    ensures
        host.batch_refusal(id, generation, None, token) is Some,
        host.batch_refusal(id, generation, Some(entries), token) is None <==> {
            let records = host.file_confirmations.map();
            &&& records.contains_key(token)
            &&& records[token].confirmation.extension.0@ == id
            &&& records[token].confirmation.generation == generation
            &&& entries@.len() == records[token].transactions@.len()
            &&& forall|i: int|
                0 <= i < entries@.len() ==> asks_for(
                    #[trigger] entries@[i],
                    records[token].transactions@[i],
                )
            &&& host.refusal(id, generation) is None
        },
{
    all_entries_are_asked(entries@, host.file_confirmations.map()[token].transactions@, 0);
}

/// An expectation is met exactly where it names the number, the digest and the preview of the action that
/// the token confirms, for the package that the token was issued to, and that package may act.
pub proof fn expectations_are_exact(
    host: ExtensionRuntime,
    id: Seq<char>,
    generation: u64,
    expected: Json,
    token: Seq<char>,
)
    ensures
        host.expectation_refusal(id, generation, expected, token) is None ==> {
            let confirmation = host.file_confirmations.map()[token].confirmation;
            &&& host.file_confirmations.map().contains_key(token)
            &&& host.refusal(id, generation) is None
            &&& confirmation.extension.0@ == id
            &&& confirmation.generation == generation
            &&& natural_field(expected, "transaction_id"@) == Some(confirmation.transaction_id)
            &&& text_field(expected, "digest"@) == Some(confirmation.digest@)
            &&& field(expected, "preview"@) is Some
            &&& ({
                let shown = field(expected, "preview"@)->Some_0;
                &&& text_field(shown, "path"@) == Some(confirmation.preview.path@)
                &&& field(shown, "existed"@) == Some(Json::Bool(confirmation.preview.existed))
                &&& field(shown, "changed"@) == Some(Json::Bool(confirmation.preview.changed))
                &&& field(shown, "destructive"@) == Some(
                    Json::Bool(confirmation.preview.destructive),
                )
                &&& natural_field(shown, "before_bytes"@) == Some(
                    confirmation.preview.before_bytes as u64,
                )
                &&& natural_field(shown, "after_bytes"@) == Some(
                    confirmation.preview.after_bytes as u64,
                )
            })
        },
{
}

/// An applied file is still as it was left only where it holds the same bytes and is the same file, or is
/// as absent as it was left.
pub proof fn left_as_applied(look: Look, post: FileSnapshot)
    ensures
        still_as_applied(look, post) ==> match look {
            Look::Found(current) => current.existed == post.existed && current.bytes@ == post.bytes@
                && current.identity == post.identity && current.version == post.version,
            Look::Missing(_) => !post.existed && post.bytes@.len() == 0,
            _ => false,
        },
{
}

/// What is recorded of a file that could not be put back is where it is and why, and whether it was changed
/// by another.
pub proof fn rollback_errors_tell_the_cause(
    recorded: FileBatchRollbackError,
    path: Seq<char>,
    error: ExtensionError,
)
    requires
        rollback_error_is(recorded, path, error),
    ensures
        recorded.path@ == path,
        recorded.code@ == error.code@,
        recorded.message@ == error.message@,
        recorded.conflict <==> error.code@ == "file_conflict"@,
{
}

}
