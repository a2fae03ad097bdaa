//! Logs and observations of packages.

use vstd::prelude::*;
use vstd::utf8::encode_utf8;
use super::command::OwnerIdentity;
use super::error::ExtensionError;
use super::ids::ExtensionGeneration;
use super::runtime::{
    refused_by, BindingId, ExtensionLogEntry, ExtensionRuntime, HostObservation, LogRecord,
    ObservationRecord, EXTENSION_FILE_BYTES,
};
use crate::outside::{json_reading, read_json};
use crate::table::TableKey;
use crate::text::join;

verus! {

/// How many entries of a log are kept.
pub const EXTENSION_LOG_LIMIT: usize = 256;

/// How many bytes of a log's messages are kept.
pub const EXTENSION_LOG_BYTES: usize = 131072;

/// The bytes that the messages of a log take.
pub open spec fn log_weight(entries: Seq<ExtensionLogEntry>) -> nat
    decreases entries.len(),
{
    if entries.len() == 0 {
        0
    } else {
        encode_utf8(entries[0].message@).len() + log_weight(entries.drop_first())
    }
}

/// A log without its oldest entries, as many as it takes to stay within both limits.
pub open spec fn log_within_limits(entries: Seq<ExtensionLogEntry>) -> Seq<ExtensionLogEntry>
    decreases entries.len(),
{
    if entries.len() > 0 && (entries.len() > EXTENSION_LOG_LIMIT || log_weight(entries)
        > EXTENSION_LOG_BYTES) {
        log_within_limits(entries.drop_first())
    } else {
        entries
    }
}

/// A log stays within both limits.
pub proof fn log_is_bounded(entries: Seq<ExtensionLogEntry>)
    ensures
        log_within_limits(entries).len() <= EXTENSION_LOG_LIMIT,
        log_weight(log_within_limits(entries)) <= EXTENSION_LOG_BYTES,
    decreases entries.len(),
{
    if entries.len() > 0 && (entries.len() > EXTENSION_LOG_LIMIT || log_weight(entries)
        > EXTENSION_LOG_BYTES) {
        log_is_bounded(entries.drop_first());
    }
}

/// Whether the messages of a log take more than the limit.
fn log_too_heavy(entries: &Vec<ExtensionLogEntry>) -> (out: bool)
    ensures
        out == (log_weight(entries@) > EXTENSION_LOG_BYTES),
{
    let mut room: usize = EXTENSION_LOG_BYTES;
    let mut i: usize = 0;
    assert(entries@.skip(0) =~= entries@);
    while i < entries.len()
        invariant
            i <= entries@.len(),
            room <= EXTENSION_LOG_BYTES,
            log_weight(entries@) == EXTENSION_LOG_BYTES - room + log_weight(
                entries@.skip(i as int),
            ),
        decreases entries@.len() - i,
    {
        let size = entries[i].message.as_str().as_bytes().len();
        assert(entries@.skip(i as int).drop_first() =~= entries@.skip(i + 1));
        if size > room {
            return true;
        }
        room = room - size;
        i = i + 1;
    }
    false
}

impl ExtensionLogEntry {
    /// A copy of this entry.
    pub fn copy(&self) -> (out: Self)
        ensures
            out == *self,
    {
        ExtensionLogEntry {
            timestamp_ms: self.timestamp_ms,
            level: self.level.clone(),
            message: self.message.clone(),
            generation: self.generation,
        }
    }
}

impl ExtensionRuntime {
    /// The log that a holder wrote.
    pub open spec fn log_of(&self, binding: BindingId) -> Seq<ExtensionLogEntry> {
        if self.logs.map().contains_key(binding) {
            self.logs.map()[binding].entries@
        } else {
            Seq::empty()
        }
    }

    /// Writes an entry to a generation's log; the oldest entries leave where a limit is passed.
    pub fn log(
        &mut self,
        id: &str,
        generation: u64,
        owner: OwnerIdentity,
        level: &str,
        message: &str,
        timestamp_ms: u64,
    ) -> (out: Result<(), ExtensionError>)
        requires
            old(self).wf(),
        ensures
            final(self).wf(),
            *final(self) == (ExtensionRuntime { logs: final(self).logs, ..*old(self) }),
            refused_by(out, old(self).binding_refusal(id@, generation)),
            old(self).binding_refusal(id@, generation) is None ==> {
                &&& out is Ok <==> encode_utf8(message@).len() <= EXTENSION_LOG_BYTES
                &&& out matches Err(e) ==> e.is(
                    "log_too_large"@,
                    "extension log entry exceeds host limit"@,
                )
            },
            out is Err ==> *final(self) == *old(self),
            out is Ok ==> {
                let binding = Self::binding_of(id@, generation, owner);
                let after = final(self).logs.map();
                &&& after.contains_key(binding)
                &&& after == old(self).logs.map().insert(binding, after[binding])
                &&& exists|entry: ExtensionLogEntry| #[trigger]
                    log_entry_is(entry, timestamp_ms, level@, message@, generation)
                        && final(self).log_of(binding) == log_within_limits(
                        old(self).log_of(binding).push(entry),
                    )
            },
    {
        let binding = match self.resource_binding(id, generation, owner) {
            Ok(binding) => binding,
            Err(error) => {
                return Err(error);
            },
        };
        if message.as_bytes().len() > EXTENSION_LOG_BYTES {
            return Err(
                ExtensionError::new("log_too_large", "extension log entry exceeds host limit"),
            );
        }
        let entry = ExtensionLogEntry {
            timestamp_ms,
            level: level.to_owned(),
            message: message.to_owned(),
            generation,
        };
        let ghost listed = self.log_of(binding.binding_id());
        assert(log_entry_is(entry, timestamp_ms, level@, message@, generation));
        let mut entries = match self.logs.remove(&binding) {
            Some(record) => record.entries,
            None => Vec::new(),
        };
        assert(entries@ =~= listed);
        entries.push(entry);
        while entries.len() > EXTENSION_LOG_LIMIT || log_too_heavy(&entries)
            invariant
                log_within_limits(entries@) == log_within_limits(listed.push(entry)),
            decreases entries@.len(),
        {
            assert(entries@.len() > 0);
            let _ = entries.remove(0);
            assert(entries@ =~= entries@);
        }
        assert(log_within_limits(entries@) == entries@);
        let ghost key = binding.id();
        self.logs.insert(
            binding,
            LogRecord { generation: ExtensionGeneration::of(id, generation), entries },
        );
        assert(self.logs.map() =~= old(self).logs.map().insert(key, self.logs.map()[key]));
        Ok(())
    }

    /// A generation's log, oldest entry first.
    pub fn logs(&self, id: &str, generation: u64, owner: OwnerIdentity) -> (out: Result<
        Vec<ExtensionLogEntry>,
        ExtensionError,
    >)
        requires
            self.wf(),
        ensures
            out is Ok <==> self.binding_refusal(id@, generation) is None,
            refused_by(out, self.binding_refusal(id@, generation)),
            out matches Ok(list) ==> list@ == self.log_of(Self::binding_of(id@, generation, owner)),
    {
        let binding = match self.resource_binding(id, generation, owner) {
            Ok(binding) => binding,
            Err(error) => {
                return Err(error);
            },
        };
        let mut list: Vec<ExtensionLogEntry> = Vec::new();
        match self.logs.get(&binding) {
            None => {},
            Some(record) => {
                let mut i: usize = 0;
                while i < record.entries.len()
                    invariant
                        i <= record.entries@.len(),
                        list@ == record.entries@.take(i as int),
                    decreases record.entries@.len() - i,
                {
                    let entry = record.entries[i].copy();
                    list.push(entry);
                    i = i + 1;
                    assert(record.entries@.take(i as int) =~= record.entries@.take(i - 1).push(
                        record.entries@[i - 1],
                    ));
                }
                assert(record.entries@.take(i as int) =~= record.entries@);
            },
        }
        assert(list@ =~= self.log_of(binding.binding_id()));
        Ok(list)
    }

    /// What a holder recorded of its metadata.
    pub open spec fn observed_metadata(&self, binding: BindingId) -> Seq<char> {
        if self.observation_metadata.map().contains_key(binding) {
            self.observation_metadata.map()[binding].metadata@
        } else {
            "null"@
        }
    }

    /// What the host shows a generation.
    pub fn observe(&self, id: &str, generation: u64, owner: OwnerIdentity) -> (out: Result<
        HostObservation,
        ExtensionError,
    >)
        requires
            self.wf(),
        ensures
            out is Ok <==> self.binding_refusal(id@, generation) is None,
            refused_by(out, self.binding_refusal(id@, generation)),
            out matches Ok(seen) ==> {
                &&& seen.topology@ == self.topology@
                &&& seen.terminals@ == self.terminals@
                &&& seen.metadata@ == self.observed_metadata(
                    Self::binding_of(id@, generation, owner),
                )
            },
    {
        match self.resource_binding(id, generation, owner) {
            Err(error) => Err(error),
            Ok(binding) => Ok(
                HostObservation {
                    topology: self.topology.clone(),
                    terminals: self.terminals.clone(),
                    metadata: match self.observation_metadata.get(&binding) {
                        Some(record) => record.metadata.clone(),
                        None => "null".to_owned(),
                    },
                },
            ),
        }
    }

    /// Records what a generation observed; only its metadata is kept.
    pub fn replace_observation(
        &mut self,
        id: &str,
        generation: u64,
        owner: OwnerIdentity,
        observation: HostObservation,
    ) -> (out: Result<(), ExtensionError>)
        requires
            old(self).wf(),
        ensures
            final(self).wf(),
            *final(self) == (ExtensionRuntime {
                observation_metadata: final(self).observation_metadata,
                ..*old(self)
            }),
            out is Ok <==> old(self).observation_refusal(id@, generation, observation) is None,
            refused_by(out, old(self).observation_refusal(id@, generation, observation)),
            out is Err ==> *final(self) == *old(self),
            out is Ok ==> {
                let binding = Self::binding_of(id@, generation, owner);
                let after = final(self).observation_metadata.map();
                &&& after.contains_key(binding)
                &&& after == old(self).observation_metadata.map().insert(binding, after[binding])
                &&& json_reading(observation.metadata@) == Ok::<Seq<char>, Seq<char>>(
                    after[binding].metadata@,
                )
                &&& after[binding].generation.pair() == (id@, generation)
            },
    {
        let binding = match self.resource_binding(id, generation, owner) {
            Ok(binding) => binding,
            Err(error) => {
                return Err(error);
            },
        };
        let (text, metadata) = match encode_observation(&observation) {
            Ok(read) => read,
            Err(message) => {
                return Err(ExtensionError::new("invalid_observation", &message));
            },
        };
        if text.as_str().as_bytes().len() > EXTENSION_FILE_BYTES {
            return Err(
                ExtensionError::new("observation_too_large", "host observation exceeds limit"),
            );
        }
        self.observation_metadata.insert(
            binding,
            ObservationRecord { generation: ExtensionGeneration::of(id, generation), metadata },
        );
        Ok(())
    }

    /// Why an observation is not recorded; `None` where it is.
    pub open spec fn observation_refusal(
        &self,
        id: Seq<char>,
        generation: u64,
        observation: HostObservation,
    ) -> Option<(Seq<char>, Seq<char>)> {
        if self.binding_refusal(id, generation) is Some {
            self.binding_refusal(id, generation)
        } else {
            match observation_json(observation) {
                Err(message) => Some(("invalid_observation"@, message)),
                Ok(text) => if encode_utf8(text).len() > EXTENSION_FILE_BYTES {
                    Some(("observation_too_large"@, "host observation exceeds limit"@))
                } else {
                    None
                },
            }
        }
    }
}

/// An observation as JSON, in compact form, or the message of the error where one of its parts is no
/// JSON.
pub open spec fn observation_json(observation: HostObservation) -> Result<Seq<char>, Seq<char>> {
    match json_reading(observation.topology@) {
        Err(message) => Err(message),
        Ok(topology) => match json_reading(observation.terminals@) {
            Err(message) => Err(message),
            Ok(terminals) => match json_reading(observation.metadata@) {
                Err(message) => Err(message),
                Ok(metadata) => Ok(
                    "{\"topology\":"@ + topology + ",\"terminals\":"@ + terminals
                        + ",\"metadata\":"@ + metadata + "}"@,
                ),
            },
        },
    }
}

/// An observation as JSON, and its metadata.
fn encode_observation(observation: &HostObservation) -> (out: Result<(String, String), String>)
    ensures
        match out {
            Ok((text, metadata)) => observation_json(*observation) == Ok::<Seq<char>, Seq<char>>(
                text@,
            ) && json_reading(observation.metadata@) == Ok::<Seq<char>, Seq<char>>(metadata@),
            Err(message) => observation_json(*observation) == Err::<Seq<char>, Seq<char>>(
                message@,
            ),
        },
{
    let topology = match read_json(&observation.topology) {
        Ok(text) => text,
        Err(message) => {
            return Err(message);
        },
    };
    let terminals = match read_json(&observation.terminals) {
        Ok(text) => text,
        Err(message) => {
            return Err(message);
        },
    };
    let metadata = match read_json(&observation.metadata) {
        Ok(text) => text,
        Err(message) => {
            return Err(message);
        },
    };
    let a = join("{\"topology\":", &topology);
    let b = join(&a, ",\"terminals\":");
    let c = join(&b, &terminals);
    let d = join(&c, ",\"metadata\":");
    let e = join(&d, &metadata);
    Ok((join(&e, "}"), metadata))
}

/// Whether an entry of a log has the given time, level, message and generation.
pub open spec fn log_entry_is(
    entry: ExtensionLogEntry,
    timestamp_ms: u64,
    level: Seq<char>,
    message: Seq<char>,
    generation: u64,
) -> bool {
    &&& entry.timestamp_ms == timestamp_ms
    &&& entry.level@ == level
    &&& entry.message@ == message
    &&& entry.generation == generation
}

proof fn log_limits_keep_the_end(entries: Seq<ExtensionLogEntry>)
    ensures
        log_within_limits(entries).len() <= entries.len(),
        log_within_limits(entries) == entries.skip(
            entries.len() - log_within_limits(entries).len(),
        ),
        log_within_limits(entries).len() < entries.len() ==> {
            let longer = entries.skip(entries.len() - log_within_limits(entries).len() - 1);
            longer.len() > 256 || log_weight(longer) > 131072
        },
    decreases entries.len(),
{
    assert(entries.skip(0) =~= entries);
    if entries.len() > 0 && (entries.len() > EXTENSION_LOG_LIMIT || log_weight(entries)
        > EXTENSION_LOG_BYTES) {
        let rest = entries.drop_first();
        log_limits_keep_the_end(rest);
        let n = log_within_limits(rest).len();
        assert(entries.skip(entries.len() - n) =~= rest.skip(rest.len() - n));
        if n < rest.len() {
            assert(entries.skip(entries.len() - n - 1) =~= rest.skip(rest.len() - n - 1));
        } else {
            assert(entries.skip(entries.len() - n - 1) =~= entries);
        }
    }
}

/// A message that is logged is the last of the log, with its time, its level and its generation. The
/// ones before it stay, and of them only the oldest give way, and only to keep the limits.
pub proof fn logged_message_is_kept(
    log: Seq<ExtensionLogEntry>,
    entry: ExtensionLogEntry,
    timestamp_ms: u64,
    level: Seq<char>,
    message: Seq<char>,
    generation: u64,
)
    requires
        log_entry_is(entry, timestamp_ms, level, message, generation),
        encode_utf8(message).len() <= 131072,
    ensures
        ({
            let after = log_within_limits(log.push(entry));
            let last = after.last();
            let old = after.len() - 1;
            &&& after.len() > 0
            &&& last.timestamp_ms == timestamp_ms
            &&& last.level@ == level
            &&& last.message@ == message
            &&& last.generation == generation
            &&& after.drop_last() == log.skip(log.len() - old)
            &&& old < log.len() ==> {
                let longer = log.push(entry).skip(log.len() - old - 1);
                longer.len() > 256 || log_weight(longer) > 131072
            }
        }),
{
    let all = log.push(entry);
    log_limits_keep_the_end(all);
    let kept = log_within_limits(all);
    if kept.len() == 0 {
        let longer = all.skip(all.len() - 1);
        assert(longer =~= seq![entry]);
        assert(longer[0] == entry);
        assert(log_weight(longer.drop_first()) == 0);
        assert(false);
    }
    assert(kept.last() == entry);
    let old = kept.len() - 1;
    assert(kept.drop_last() =~= log.skip(log.len() - old));
}

/// What a generation observed is what it sees next, and no other sees it.
pub proof fn observed_is_seen(
    before: ExtensionRuntime,
    after: ExtensionRuntime,
    binding: BindingId,
    other: BindingId,
    metadata: Seq<char>,
)
    requires
        after.observation_metadata.map().contains_key(binding),
        after.observation_metadata.map() == before.observation_metadata.map().insert(
            binding,
            after.observation_metadata.map()[binding],
        ),
        after.observation_metadata.map()[binding].metadata@ == metadata,
    ensures
        after.observed_metadata(binding) == metadata,
        other != binding ==> after.observed_metadata(other) == before.observed_metadata(other),
        !before.observation_metadata.map().contains_key(other) && other != binding
            ==> after.observed_metadata(other) == "null"@,
{
}

/// An observation is written out as an object of its three parts, each under its name; it is refused where
/// one of them is no JSON or the whole is too large.
pub proof fn observations_are_written_out(
    host: ExtensionRuntime,
    id: Seq<char>,
    generation: u64,
    observation: HostObservation,
)
    ensures
        ({
            let topology = json_reading(observation.topology@);
            let terminals = json_reading(observation.terminals@);
            let metadata = json_reading(observation.metadata@);
            let good = topology is Ok && terminals is Ok && metadata is Ok;
            let text = "{\"topology\":"@ + topology->Ok_0 + ",\"terminals\":"@ + terminals->Ok_0
                + ",\"metadata\":"@ + metadata->Ok_0 + "}"@;
            &&& observation_json(observation) is Ok <==> good
            &&& good ==> observation_json(observation) == Ok::<Seq<char>, Seq<char>>(text)
            &&& host.observation_refusal(id, generation, observation) is None <==> good
                && encode_utf8(text).len() <= 524288 && host.binding_refusal(id, generation) is None
        }),
{
}

}
