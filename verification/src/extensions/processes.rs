//! Processes of packages.

use vstd::prelude::*;
use vstd::utf8::encode_utf8;
use super::error::ExtensionError;
use super::ids::ExtensionGeneration;
use super::output::{appended_chunk, line_views, ProcessLine, ProcessOutput, EXTENSION_PROCESS_BYTES};
use super::packages::changed_at;
use super::registrations::Committed;
use super::runtime::{key_of, refused_by, ExtensionRuntime, ProcessRecord};
use crate::table::{taken, Owned};
use crate::text::{decimal, decimal_is_injective, decimal_text, join, texts};

verus! {

/// How many processes a generation may have.
pub const EXTENSION_PROCESS_LIMIT: usize = 16;

/// A process to start.
#[derive(Clone, Debug, PartialEq, Eq)]
pub struct ProcessSpec {
    pub executable: String,
    pub arguments: Vec<String>,
    pub cwd: Option<String>,
    /// Variables to set, by name.
    pub environment: Vec<(String, String)>,
}

/// The state of a process.
#[derive(Clone, Debug, PartialEq, Eq)]
pub struct ProcessStatus {
    pub id: String,
    pub running: bool,
    pub exit_code: Option<i32>,
    pub generation: ExtensionGeneration,
}

/// What came of the attempt to reserve a place for a process, and the processes that had ended and
/// were dropped: the caller cleans up after those.
#[derive(Debug)]
pub struct ProcessReservation {
    pub result: Result<(), ExtensionError>,
    pub retired: Vec<String>,
}

/// What became of a wait for a process.
#[derive(Debug)]
pub enum ProcessWait {
    Ended(ProcessStatus),
    Failed(ExtensionError),
    Again,
}

/// What identifies the process with number `n`.
pub open spec fn process_name(n: u64) -> Seq<char> {
    "process-"@ + decimal(n as nat)
}

/// `map` without the processes of a generation that are named in `ended`.
pub open spec fn without_ended(
    map: Map<Seq<char>, ProcessRecord>,
    owner: (Seq<char>, u64),
    ended: Seq<String>,
) -> Map<Seq<char>, ProcessRecord> {
    Map::new(
        |k: Seq<char>|
            map.contains_key(k) && !(map[k].owner() == owner && texts(ended).contains(k)),
        |k: Seq<char>| map[k],
    )
}

impl ExtensionRuntime {
    /// How many places a generation has reserved for processes.
    pub open spec fn reserved_processes(&self, owner: (Seq<char>, u64)) -> nat {
        if self.process_reservations.map().contains_key(owner) {
            self.process_reservations.map()[owner] as nat
        } else {
            0
        }
    }

    /// How many processes a generation has or is about to have.
    pub open spec fn process_load(&self, owner: (Seq<char>, u64)) -> nat {
        taken(self.processes.map(), owner).len() + self.reserved_processes(owner)
    }

    /// Why a generation may not start a process at all; `None` where it may, within its quota.
    pub open spec fn spawn_refusal(&self, id: Seq<char>, generation: u64, executable: Seq<char>) -> Option<
        (Seq<char>, Seq<char>),
    > {
        if self.refusal(id, generation) is Some {
            self.refusal(id, generation)
        } else if executable.len() == 0 || encode_utf8(executable).len() > 4096 {
            Some(("invalid_process"@, "executable is invalid"@))
        } else {
            None
        }
    }

    /// Takes the processes that are named in `ended` and belong to a generation out of the table.
    fn drop_ended(&mut self, id: &str, generation: u64, ended: &[String]) -> (out: Vec<String>)
        requires
            old(self).wf(),
        ensures
            final(self).wf(),
            *final(self) == (ExtensionRuntime { processes: final(self).processes, ..*old(self) }),
            final(self).processes.map() == without_ended(
                old(self).processes.map(),
                (id@, generation),
                ended@,
            ),
            forall|k: Seq<char>|
                texts(out@).contains(k) <==> #[trigger] old(self).processes.map().contains_key(k)
                    && !final(self).processes.map().contains_key(k),
    {
        let ghost before = self.processes.map();
        let ghost owner = (id@, generation);
        let mut out: Vec<String> = Vec::new();
        let mut i: usize = 0;
        assert(texts(ended@.take(0)) =~= Seq::<Seq<char>>::empty());
        assert(self.processes.map() =~= without_ended(before, owner, ended@.take(0)));
        while i < ended.len()
            invariant
                i <= ended@.len(),
                self.wf(),
                owner == (id@, generation),
                before == old(self).processes.map(),
                *self == (ExtensionRuntime { processes: self.processes, ..*old(self) }),
                self.processes.map() == without_ended(before, owner, ended@.take(i as int)),
                forall|k: Seq<char>|
                    texts(out@).contains(k) <==> #[trigger] before.contains_key(k)
                        && !self.processes.map().contains_key(k),
            decreases ended@.len() - i,
        {
            let ghost name = ended@[i as int]@;
            let ghost current = self.processes.map();
            let ghost listed = out@;
            let owned = match self.processes.get(&ended[i]) {
                Some(record) => record.generation.is(id, generation),
                None => false,
            };
            proof {
                assert(texts(ended@.take(i + 1)) =~= texts(ended@.take(i as int)).push(name));
                let shorter = texts(ended@.take(i as int));
                let longer = texts(ended@.take(i + 1));
                assert(longer[i as int] == name);
                assert forall|k: Seq<char>| longer.contains(k) <==> shorter.contains(k) || k
                    == name by {
                    if longer.contains(k) {
                        let j = choose|j: int| 0 <= j < longer.len() && longer[j] == k;
                        if j < i {
                            assert(shorter[j] == k);
                        }
                    }
                    if shorter.contains(k) {
                        let j = choose|j: int| 0 <= j < shorter.len() && shorter[j] == k;
                        assert(longer[j] == k);
                    }
                }
            }
            if owned {
                let _ = self.processes.remove(&ended[i]);
                out.push(ended[i].clone());
                proof {
                    assert(self.processes.map() == current.remove(name));
                    assert(texts(out@) =~= texts(listed).push(name));
                    assert forall|k: Seq<char>|
                        texts(out@).contains(k) <==> #[trigger] before.contains_key(k)
                            && !self.processes.map().contains_key(k) by {
                        if texts(out@).contains(k) {
                            let j = choose|j: int| 0 <= j < texts(out@).len() && texts(out@)[j] == k;
                            if j < listed.len() {
                                assert(texts(listed)[j] == k);
                                assert(texts(listed).contains(k));
                            }
                        }
                        if texts(listed).contains(k) {
                            let j = choose|j: int|
                                0 <= j < texts(listed).len() && texts(listed)[j] == k;
                            assert(texts(out@)[j] == k);
                        }
                        assert(texts(out@)[listed.len() as int] == name);
                    }
                }
            }
            proof {
                assert(self.processes.map() =~= without_ended(before, owner, ended@.take(i + 1)));
            }
            i = i + 1;
        }
        assert(ended@.take(i as int) =~= ended@);
        out
    }

    /// Reserves a place for a process of a generation. `ended` names the processes that the caller
    /// saw end: those of this generation are dropped first.
    pub fn spawn_process(
        &mut self,
        id: &str,
        generation: u64,
        executable: &str,
        ended: &[String],
    ) -> (out: ProcessReservation)
        requires
            old(self).wf(),
        ensures
            final(self).wf(),
            *final(self) == (ExtensionRuntime {
                processes: final(self).processes,
                process_reservations: final(self).process_reservations,
                ..*old(self)
            }),
            refused_by(out.result, old(self).spawn_refusal(id@, generation, executable@)),
            old(self).spawn_refusal(id@, generation, executable@) is Some ==> *final(self)
                == *old(self) && out.retired@.len() == 0,
            old(self).spawn_refusal(id@, generation, executable@) is None ==> {
                let owner = (id@, generation);
                let left = without_ended(old(self).processes.map(), owner, ended@);
                let load = taken(left, owner).len() + old(self).reserved_processes(owner);
                &&& final(self).processes.map() == left
                &&& forall|k: Seq<char>|
                    texts(out.retired@).contains(k) <==> #[trigger] old(
                        self,
                    ).processes.map().contains_key(k) && !left.contains_key(k)
                &&& out.result is Ok <==> load < EXTENSION_PROCESS_LIMIT
                &&& out.result matches Err(e) ==> final(self).process_reservations == old(
                    self,
                ).process_reservations && e.is(
                    "process_quota_exceeded"@,
                    "extension process quota is exhausted"@,
                )
                &&& out.result is Ok ==> {
                    &&& final(self).process_reservations.map() == old(
                        self,
                    ).process_reservations.map().insert(
                        owner,
                        (old(self).reserved_processes(owner) + 1) as usize,
                    )
                    &&& final(self).process_load(owner) <= EXTENSION_PROCESS_LIMIT
                }
            },
    {
        match self.package_generation(id, generation) {
            Err(error) => {
                return ProcessReservation { result: Err(error), retired: Vec::new() };
            },
            Ok(_) => {},
        }
        if executable.is_empty() || executable.as_bytes().len() > 4096 {
            return ProcessReservation {
                result: Err(ExtensionError::new("invalid_process", "executable is invalid")),
                retired: Vec::new(),
            };
        }
        let retired = self.drop_ended(id, generation, ended);
        let live = self.processes.count_generation(id, generation);
        let key = ExtensionGeneration::of(id, generation);
        let reserved = match self.process_reservations.get(&key) {
            Some(count) => *count,
            None => 0,
        };
        if live >= EXTENSION_PROCESS_LIMIT || reserved >= EXTENSION_PROCESS_LIMIT - live {
            return ProcessReservation {
                result: Err(
                    ExtensionError::new(
                        "process_quota_exceeded",
                        "extension process quota is exhausted",
                    ),
                ),
                retired,
            };
        }
        self.process_reservations.insert(key, reserved + 1);
        ProcessReservation { result: Ok(()), retired }
    }

    /// The reservations with one place of a generation given back.
    pub open spec fn released(
        reservations: Map<(Seq<char>, u64), usize>,
        owner: (Seq<char>, u64),
    ) -> Map<(Seq<char>, u64), usize> {
        if !reservations.contains_key(owner) {
            reservations
        } else if reservations[owner] <= 1 {
            reservations.remove(owner)
        } else {
            reservations.insert(owner, (reservations[owner] - 1) as usize)
        }
    }

    /// Gives back a place that was reserved for a process.
    fn release_process_reservation(&mut self, id: &str, generation: u64)
        requires
            old(self).wf(),
        ensures
            final(self).wf(),
            *final(self) == (ExtensionRuntime {
                process_reservations: final(self).process_reservations,
                ..*old(self)
            }),
            final(self).process_reservations.map() == Self::released(
                old(self).process_reservations.map(),
                (id@, generation),
            ),
    {
        let key = ExtensionGeneration::of(id, generation);
        let ghost before = self.process_reservations.map();
        let ghost owner = (id@, generation);
        match self.process_reservations.remove(&key) {
            None => {},
            Some(count) => {
                if count > 1 {
                    self.process_reservations.insert(key, count - 1);
                    assert(before.remove(owner).insert(owner, (count - 1) as usize)
                        =~= before.insert(owner, (count - 1) as usize));
                }
            },
        }
    }

    /// Records a process that was started, or gives the place back. A process whose generation was
    /// retired in between, or whose host was shut down, is refused, and the caller stops it.
    pub fn commit_process(
        &mut self,
        id: &str,
        generation: u64,
        spawned: Result<(), String>,
    ) -> (out: Committed<ProcessStatus>)
        requires
            old(self).wf(),
        ensures
            final(self).wf(),
            *final(self) == (ExtensionRuntime {
                processes: final(self).processes,
                process_reservations: final(self).process_reservations,
                next_process: final(self).next_process,
                ..*old(self)
            }),
            final(self).process_reservations.map() == Self::released(
                old(self).process_reservations.map(),
                (id@, generation),
            ),
            out.result is Err ==> final(self).processes == old(self).processes,
            match spawned {
                Err(message) => {
                    &&& !out.undo
                    &&& final(self).next_process == old(self).next_process
                    &&& out.result matches Err(e) && e.is("process_spawn_failed"@, message@)
                },
                Ok(_) => {
                    &&& out.undo <==> out.result is Err
                    &&& final(self).next_process == (if old(self).next_process == u64::MAX {
                        0
                    } else {
                        (old(self).next_process + 1) as u64
                    })
                    &&& out.result is Ok <==> !old(self).shutdown && old(self).active(
                        id@,
                        generation,
                    )
                    &&& old(self).shutdown ==> (out.result matches Err(e) && e.is(
                        "extension_stopped"@,
                        "extension runtime has been shut down"@,
                    ))
                    &&& !old(self).shutdown && !old(self).active(id@, generation) ==> (out.result
                        matches Err(e) && e.is(
                        "stale_generation"@,
                        "extension generation is stale"@,
                    ))
                    &&& out.result matches Ok(status) ==> {
                        let name = process_name(old(self).next_process);
                        let after = final(self).processes.map();
                        &&& status.id@ == name
                        &&& status.running
                        &&& status.exit_code is None
                        &&& status.generation.pair() == (id@, generation)
                        &&& changed_at(old(self).processes.map(), after, name)
                        &&& after[name].generation.pair() == (id@, generation)
                        &&& after[name].output@.lines.len() == 0
                        &&& after[name].output@.next == 1
                    }
                },
            },
    {
        self.release_process_reservation(id, generation);
        match spawned {
            Err(message) => {
                return Committed {
                    result: Err(ExtensionError::new("process_spawn_failed", &message)),
                    undo: false,
                };
            },
            Ok(()) => {},
        }
        let number = decimal_text(self.next_process);
        let name = join("process-", &number);
        self.next_process = self.next_process.wrapping_add(1);
        if self.shutdown {
            return Committed {
                result: Err(
                    ExtensionError::new(
                        "extension_stopped",
                        "extension runtime has been shut down",
                    ),
                ),
                undo: true,
            };
        }
        if self.validate_package_state(id, generation).is_err() {
            return Committed {
                result: Err(
                    ExtensionError::new("stale_generation", "extension generation is stale"),
                ),
                undo: true,
            };
        }
        let record = ProcessRecord {
            generation: ExtensionGeneration::of(id, generation),
            output: ProcessOutput::new(),
        };
        self.processes.insert(name.clone(), record);
        Committed {
            result: Ok(
                ProcessStatus {
                    id: name,
                    running: true,
                    exit_code: None,
                    generation: ExtensionGeneration::of(id, generation),
                },
            ),
            undo: false,
        }
    }

    /// Why a process is not open to a generation; `None` where it is.
    pub open spec fn process_refusal(&self, process: Seq<char>, id: Seq<char>, generation: u64) -> Option<
        (Seq<char>, Seq<char>),
    > {
        let processes = self.processes.map();
        if !processes.contains_key(process) {
            Some(("unknown_process"@, "process is not registered"@))
        } else if processes[process].generation.pair() != (id, generation) {
            Some(("stale_generation"@, "process belongs to a different extension generation"@))
        } else {
            self.refusal(id, generation)
        }
    }

    /// Refuses a process that another generation holds, and one whose generation may not act.
    pub fn process_for_owner(&self, process: &str, id: &str, generation: u64) -> (out: Result<
        &ProcessRecord,
        ExtensionError,
    >)
        requires
            self.wf(),
        ensures
            out is Ok <==> self.process_refusal(process@, id@, generation) is None,
            refused_by(out, self.process_refusal(process@, id@, generation)),
            out matches Ok(record) ==> *record == self.processes.map()[process@],
    {
        let key = key_of(process);
        match self.processes.get(&key) {
            None => Err(ExtensionError::new("unknown_process", "process is not registered")),
            Some(record) => {
                if !record.generation.is(id, generation) {
                    return Err(
                        ExtensionError::new(
                            "stale_generation",
                            "process belongs to a different extension generation",
                        ),
                    );
                }
                match self.package_generation(id, generation) {
                    Err(error) => Err(error),
                    Ok(_) => Ok(record),
                }
            },
        }
    }

    /// Checks what is to be written to a process.
    pub fn process_write(&self, id: &str, generation: u64, process: &str, bytes: &[u8]) -> (out: Result<
        (),
        ExtensionError,
    >)
        requires
            self.wf(),
        ensures
            bytes@.len() > EXTENSION_PROCESS_BYTES ==> (out matches Err(e) && e.is(
                "process_input_too_large"@,
                "stdin payload exceeds host limit"@,
            )),
            bytes@.len() <= EXTENSION_PROCESS_BYTES ==> {
                &&& out is Ok <==> self.process_refusal(process@, id@, generation) is None
                &&& refused_by(out, self.process_refusal(process@, id@, generation))
            },
    {
        if bytes.len() > EXTENSION_PROCESS_BYTES {
            return Err(
                ExtensionError::new("process_input_too_large", "stdin payload exceeds host limit"),
            );
        }
        match self.process_for_owner(process, id, generation) {
            Err(error) => Err(error),
            Ok(_) => Ok(()),
        }
    }

    /// The last lines that a process wrote.
    pub fn process_read(&self, id: &str, generation: u64, process: &str, limit: usize) -> (out: Result<
        Vec<ProcessLine>,
        ExtensionError,
    >)
        requires
            self.wf(),
        ensures
            out is Ok <==> self.process_refusal(process@, id@, generation) is None,
            refused_by(out, self.process_refusal(process@, id@, generation)),
            out matches Ok(lines) ==> line_views(lines@) == self.processes.map()[process@].output@.last_lines(
                limit as nat,
            ),
    {
        match self.process_for_owner(process, id, generation) {
            Err(error) => Err(error),
            Ok(record) => Ok(record.output.read(limit)),
        }
    }

    /// The lines that a process wrote after a cursor.
    pub fn process_read_since(
        &self,
        id: &str,
        generation: u64,
        process: &str,
        cursor: u64,
        limit: usize,
    ) -> (out: Result<Vec<ProcessLine>, ExtensionError>)
        requires
            self.wf(),
        ensures
            out is Ok <==> self.process_refusal(process@, id@, generation) is None,
            refused_by(out, self.process_refusal(process@, id@, generation)),
            out matches Ok(lines) ==> line_views(lines@) == self.processes.map()[process@].output@.lines_since(
                cursor,
                limit as nat,
            ),
    {
        match self.process_for_owner(process, id, generation) {
            Err(error) => Err(error),
            Ok(record) => Ok(record.output.read_since(cursor, limit)),
        }
    }

    /// Takes in what one read of a process's stream gave.
    pub fn process_output(&mut self, process: &str, stream: &str, chunk: &[u8])
        requires
            old(self).wf(),
        ensures
            final(self).wf(),
            *final(self) == (ExtensionRuntime { processes: final(self).processes, ..*old(self) }),
            !old(self).processes.map().contains_key(process@) ==> *final(self) == *old(self),
            old(self).processes.map().contains_key(process@) ==> {
                let before = old(self).processes.map()[process@];
                let after = final(self).processes.map();
                &&& changed_at(old(self).processes.map(), after, process@)
                &&& after[process@].generation == before.generation
                &&& after[process@].output@ == appended_chunk(before.output@, stream@, chunk@)
            },
    {
        let key = key_of(process);
        match self.processes.remove(&key) {
            None => {},
            Some(record) => {
                let ProcessRecord { generation, mut output } = record;
                output.append_chunk(stream, chunk);
                self.processes.insert(key, ProcessRecord { generation, output });
                proof {
                    let before = old(self).processes.map();
                    let after = self.processes.map();
                    assert(after =~= before.insert(process@, after[process@]));
                }
            },
        }
    }

    /// The state of a process. `waited` is what asking the system gave: the error, or the exit code
    /// of a process that ended. One that ended leaves the table, and the caller cleans up after it.
    pub fn process_status(
        &mut self,
        id: &str,
        generation: u64,
        process: &str,
        waited: Result<Option<Option<i32>>, String>,
    ) -> (out: Result<ProcessStatus, ExtensionError>)
        requires
            old(self).wf(),
        ensures
            final(self).wf(),
            *final(self) == (ExtensionRuntime { processes: final(self).processes, ..*old(self) }),
            refused_by(out, old(self).process_refusal(process@, id@, generation)),
            out is Err ==> *final(self) == *old(self),
            old(self).process_refusal(process@, id@, generation) is None ==> match waited {
                Err(message) => out matches Err(e) && e.is("process_wait_failed"@, message@),
                Ok(ended) => out matches Ok(status) && {
                    &&& status.id@ == process@
                    &&& status.running == (ended is None)
                    &&& status.exit_code == (match ended {
                        Some(code) => code,
                        None => None,
                    })
                    &&& status.generation.pair() == (id@, generation)
                    &&& final(self).processes.map() == (if ended is Some {
                        old(self).processes.map().remove(process@)
                    } else {
                        old(self).processes.map()
                    })
                },
            },
    {
        match self.process_for_owner(process, id, generation) {
            Err(error) => {
                return Err(error);
            },
            Ok(_) => {},
        }
        match waited {
            Err(message) => Err(ExtensionError::new("process_wait_failed", &message)),
            Ok(ended) => {
                let (running, exit_code) = match ended {
                    Some(code) => {
                        let key = key_of(process);
                        let _ = self.processes.remove(&key);
                        (false, code)
                    },
                    None => (true, None),
                };
                Ok(
                    ProcessStatus {
                        id: process.to_owned(),
                        running,
                        exit_code,
                        generation: ExtensionGeneration::of(id, generation),
                    },
                )
            },
        }
    }

    /// Ends a process: it leaves the table, and the caller stops it. `exited` is what asking the
    /// system gave: the error, or whether the process had ended already.
    pub fn process_signal(
        &mut self,
        id: &str,
        generation: u64,
        process: &str,
        exited: Result<bool, String>,
    ) -> (out: Result<(), ExtensionError>)
        requires
            old(self).wf(),
        ensures
            final(self).wf(),
            *final(self) == (ExtensionRuntime { processes: final(self).processes, ..*old(self) }),
            refused_by(out, old(self).process_refusal(process@, id@, generation)),
            old(self).process_refusal(process@, id@, generation) is Some ==> *final(self) == *old(
                self,
            ),
            old(self).process_refusal(process@, id@, generation) is None ==> match exited {
                Err(message) => *final(self) == *old(self) && (out matches Err(e) && e.is(
                    "process_wait_failed"@,
                    message@,
                )),
                Ok(ended) => {
                    &&& final(self).processes.map() == old(self).processes.map().remove(process@)
                    &&& out is Ok <==> !ended
                    &&& out matches Err(e) ==> e.is(
                        "process_closed"@,
                        "process has already exited"@,
                    )
                },
            },
    {
        match self.process_for_owner(process, id, generation) {
            Err(error) => {
                return Err(error);
            },
            Ok(_) => {},
        }
        match exited {
            Err(message) => Err(ExtensionError::new("process_wait_failed", &message)),
            Ok(ended) => {
                let key = key_of(process);
                let _ = self.processes.remove(&key);
                if ended {
                    Err(ExtensionError::new("process_closed", "process has already exited"))
                } else {
                    Ok(())
                }
            },
        }
    }

    /// Begins to wait for a process: before the first look, the caller has to be the one that started
    /// it, whether or not there is time left.
    pub fn begin_process_wait(&self, id: &str, generation: u64, process: &str) -> (out: Result<
        (),
        ExtensionError,
    >)
        requires
            self.wf(),
        ensures
            out is Ok <==> self.process_refusal(process@, id@, generation) is None,
            refused_by(out, self.process_refusal(process@, id@, generation)),
    {
        match self.process_for_owner(process, id, generation) {
            Ok(_) => Ok(()),
            Err(error) => Err(error),
        }
    }

    /// One look at a process that is waited for, after [`Self::begin_process_wait`]: a wait that was
    /// cancelled or ran out of time fails before the process is asked.
    pub fn process_wait(
        &mut self,
        id: &str,
        generation: u64,
        process: &str,
        cancelled: bool,
        expired: bool,
        waited: Result<Option<Option<i32>>, String>,
    ) -> (out: ProcessWait)
        requires
            old(self).wf(),
        ensures
            final(self).wf(),
            *final(self) == (ExtensionRuntime { processes: final(self).processes, ..*old(self) }),
            cancelled ==> *final(self) == *old(self) && (out matches ProcessWait::Failed(e)
                && e.is("cancelled"@, "process wait was cancelled"@)),
            !cancelled && expired ==> *final(self) == *old(self) && (out
                matches ProcessWait::Failed(e) && e.is(
                "deadline_exceeded"@,
                "process wait deadline expired"@,
            )),
            !cancelled && !expired ==> match old(self).process_refusal(process@, id@, generation) {
                Some((code, message)) => *final(self) == *old(self) && (out
                    matches ProcessWait::Failed(e) && e.is(code, message)),
                None => match waited {
                    Err(message) => *final(self) == *old(self) && (out
                        matches ProcessWait::Failed(e) && e.is(
                        "process_wait_failed"@,
                        message@,
                    )),
                    Ok(None) => out is Again && final(self).processes.map() == old(
                        self,
                    ).processes.map(),
                    Ok(Some(code)) => {
                        &&& out matches ProcessWait::Ended(status) && status.id@ == process@
                            && !status.running && status.exit_code == code
                            && status.generation.pair() == (id@, generation)
                        &&& final(self).processes.map() == old(self).processes.map().remove(
                            process@,
                        )
                    },
                },
            },
    {
        if cancelled {
            return ProcessWait::Failed(
                ExtensionError::new("cancelled", "process wait was cancelled"),
            );
        }
        if expired {
            return ProcessWait::Failed(
                ExtensionError::new("deadline_exceeded", "process wait deadline expired"),
            );
        }
        match self.process_status(id, generation, process, waited) {
            Err(error) => ProcessWait::Failed(error),
            Ok(status) => if status.running {
                ProcessWait::Again
            } else {
                ProcessWait::Ended(status)
            },
        }
    }
}

/// A place that was reserved turns into a process or is given back: no generation comes to more
/// processes by it than it had reserved.
pub proof fn quota_is_kept(
    before: ExtensionRuntime,
    after: ExtensionRuntime,
    owner: (Seq<char>, u64),
    name: Seq<char>,
)
    requires
        before.processes.wf(),
        before.reserved_processes(owner) > 0,
        before.process_load(owner) <= EXTENSION_PROCESS_LIMIT,
        !before.processes.map().contains_key(name),
        taken(before.processes.map(), owner).dom().finite(),
        changed_at(before.processes.map(), after.processes.map(), name),
        after.processes.map()[name].generation.pair() == owner,
        after.process_reservations.map() == ExtensionRuntime::released(
            before.process_reservations.map(),
            owner,
        ),
    ensures
        after.process_load(owner) == before.process_load(owner),
        after.process_load(owner) <= EXTENSION_PROCESS_LIMIT,
{
    let earlier = taken(before.processes.map(), owner);
    let later = taken(after.processes.map(), owner);
    assert(later.dom() =~= earlier.dom().insert(name));
}

/// Processes are named after their number, and no two numbers give the same name.
pub proof fn process_names_are_apart(a: u64, b: u64)
    ensures
        process_name(a) == "process-"@ + decimal(a as nat),
        process_name(a) == process_name(b) ==> a == b,
{
    let x = process_name(a);
    let y = process_name(b);
    let n = "process-"@.len() as int;
    assert(x.skip(n) =~= decimal(a as nat));
    assert(y.skip(n) =~= decimal(b as nat));
    if x == y {
        decimal_is_injective(a as nat, b as nat);
    }
}

/// A process is started exactly where the package may act and names a program of at most 4096 bytes.
pub proof fn programs_are_named(
    host: ExtensionRuntime,
    id: Seq<char>,
    generation: u64,
    executable: Seq<char>,
)
    ensures
        host.spawn_refusal(id, generation, executable) is None <==> host.refusal(id, generation)
            is None && executable.len() > 0 && encode_utf8(executable).len() <= 4096,
{
}

/// The processes that ended are no longer held, and no other process of any generation is lost.
pub proof fn only_the_ended_go(
    map: Map<Seq<char>, ProcessRecord>,
    owner: (Seq<char>, u64),
    ended: Seq<String>,
    name: Seq<char>,
)
    ensures
        ({
            let after = without_ended(map, owner, ended);
            let over = map[name].owner() == owner && exists|i: int|
                0 <= i < ended.len() && (#[trigger] ended[i])@ == name;
            &&& after.contains_key(name) <==> map.contains_key(name) && !over
            &&& after.contains_key(name) ==> after[name] == map[name]
        }),
{
    let list = texts(ended);
    assert(list.contains(name) <==> exists|i: int|
        0 <= i < ended.len() && (#[trigger] ended[i])@ == name) by {
        if list.contains(name) {
            let i = choose|i: int| 0 <= i < list.len() && list[i] == name;
            assert(ended[i]@ == name);
        }
        if exists|i: int| 0 <= i < ended.len() && (#[trigger] ended[i])@ == name {
            let i = choose|i: int| 0 <= i < ended.len() && (#[trigger] ended[i])@ == name;
            assert(list[i] == name);
        }
    }
}

/// Giving back a reserved place leaves its generation one place less, and the others theirs.
pub proof fn one_place_is_given_back(
    before: ExtensionRuntime,
    after: ExtensionRuntime,
    owner: (Seq<char>, u64),
    other: (Seq<char>, u64),
)
    requires
        after.process_reservations.map() == ExtensionRuntime::released(
            before.process_reservations.map(),
            owner,
        ),
    ensures
        before.reserved_processes(owner) > 0 ==> after.reserved_processes(owner)
            == before.reserved_processes(owner) - 1,
        before.reserved_processes(owner) == 0 ==> after.reserved_processes(owner) == 0,
        other != owner ==> after.reserved_processes(other) == before.reserved_processes(other),
{
}

}
