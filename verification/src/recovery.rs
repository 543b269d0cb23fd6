//! Recovered task maps, session metadata and the resolution of decoded
//! trace packets into named task events.

use vstd::prelude::*;

use crate::assoc::{distinct_keys, kv_map, lemma_kv_map_absent, lemma_kv_map_index};

verus! {

/// A task's fully-qualified name: enclosing module/function names,
/// outermost first.
pub struct TaskPath {
    pub segments: Vec<String>,
}

impl TaskPath {
    pub open spec fn view(self) -> Seq<Seq<char>> {
        self.segments.deep_view()
    }

    /// Copies a path; the copy denotes the same sequence of names.
    pub fn duplicate(&self) -> (r: TaskPath)
        ensures
            r@ == self@,
    {
        TaskPath { segments: crate::text::clone_strings(&self.segments) }
    }
}

/// The three association maps recovered from the traced application's
/// source: core-exception bindings, peripheral-interrupt bindings and
/// software-task assignments.
pub struct TaskResolveMaps {
    /// Core (architecture-internal) exception name to the bound task's path.
    pub exceptions: Vec<(String, TaskPath)>,
    /// Peripheral interrupt number to the bound task's path and the
    /// interrupt's symbolic name.
    pub interrupts: Vec<(u8, (TaskPath, String))>,
    /// Software task id to the traced function's path.
    pub sw_assocs: Vec<(u32, TaskPath)>,
}

/// The key/value views of recovered core-exception bindings.
pub open spec fn exc_pairs_of(v: Seq<(String, TaskPath)>) -> Seq<(Seq<char>, Seq<Seq<char>>)> {
    Seq::new(v.len(), |i: int| (v[i].0@, v[i].1@))
}

/// The key/value views of recovered peripheral-interrupt bindings.
pub open spec fn int_pairs_of(v: Seq<(u8, (TaskPath, String))>) -> Seq<
    (u8, (Seq<Seq<char>>, Seq<char>)),
> {
    Seq::new(v.len(), |i: int| (v[i].0, (v[i].1.0@, v[i].1.1@)))
}

/// The key/value views of recovered software-task assignments.
pub open spec fn sw_pairs_of(v: Seq<(u32, TaskPath)>) -> Seq<(u32, Seq<Seq<char>>)> {
    Seq::new(v.len(), |i: int| (v[i].0, v[i].1@))
}

impl TaskResolveMaps {
    pub open spec fn exc_pairs(self) -> Seq<(Seq<char>, Seq<Seq<char>>)> {
        exc_pairs_of(self.exceptions@)
    }

    pub open spec fn int_pairs(self) -> Seq<(u8, (Seq<Seq<char>>, Seq<char>))> {
        int_pairs_of(self.interrupts@)
    }

    pub open spec fn sw_pairs(self) -> Seq<(u32, Seq<Seq<char>>)> {
        sw_pairs_of(self.sw_assocs@)
    }

    /// Core-exception map: name to task path.
    pub open spec fn exc_map(self) -> Map<Seq<char>, Seq<Seq<char>>> {
        kv_map(self.exc_pairs())
    }

    /// Peripheral-interrupt map: vector number to task path and name.
    pub open spec fn int_map(self) -> Map<u8, (Seq<Seq<char>>, Seq<char>)> {
        kv_map(self.int_pairs())
    }

    /// Software-task map: assigned id to task path.
    pub open spec fn sw_map(self) -> Map<u32, Seq<Seq<char>>> {
        kv_map(self.sw_pairs())
    }

    /// No key appears twice in any one of the three maps.
    pub open spec fn wf(self) -> bool {
        &&& distinct_keys(self.exc_pairs())
        &&& distinct_keys(self.int_pairs())
        &&& distinct_keys(self.sw_pairs())
    }

    /// Looks a core-exception name up in the recovered bindings.
    pub fn lookup_exception(&self, name: &String) -> (r: Option<&TaskPath>)
        requires
            self.wf(),
        ensures
            match r {
                Some(p) => self.exc_map().contains_key(name@) && self.exc_map()[name@] == p@,
                None => !self.exc_map().contains_key(name@),
            },
    {
        let mut i: usize = 0;
        while i < self.exceptions.len()
            invariant
                self.wf(),
                i <= self.exceptions.len(),
                forall|j: int| 0 <= j < i ==> self.exc_pairs()[j].0 != name@,
            decreases self.exceptions@.len() - i,
        {
            if self.exceptions[i].0 == *name {
                proof {
                    lemma_kv_map_index(self.exc_pairs(), i as int);
                }
                return Some(&self.exceptions[i].1);
            }
            i += 1;
        }
        proof {
            lemma_kv_map_absent(self.exc_pairs(), name@);
        }
        None
    }

    /// Looks a peripheral-interrupt number up in the recovered bindings.
    pub fn lookup_interrupt(&self, nr: u8) -> (r: Option<&(TaskPath, String)>)
        requires
            self.wf(),
        ensures
            match r {
                Some(p) => self.int_map().contains_key(nr) && self.int_map()[nr] == (p.0@, p.1@),
                None => !self.int_map().contains_key(nr),
            },
    {
        let mut i: usize = 0;
        while i < self.interrupts.len()
            invariant
                self.wf(),
                i <= self.interrupts.len(),
                forall|j: int| 0 <= j < i ==> self.int_pairs()[j].0 != nr,
            decreases self.interrupts@.len() - i,
        {
            if self.interrupts[i].0 == nr {
                proof {
                    lemma_kv_map_index(self.int_pairs(), i as int);
                }
                return Some(&self.interrupts[i].1);
            }
            i += 1;
        }
        proof {
            lemma_kv_map_absent(self.int_pairs(), nr);
        }
        None
    }

    /// Looks a software-task id up in the recovered assignments.
    pub fn lookup_sw_task(&self, id: u32) -> (r: Option<&TaskPath>)
        requires
            self.wf(),
        ensures
            match r {
                Some(p) => self.sw_map().contains_key(id) && self.sw_map()[id] == p@,
                None => !self.sw_map().contains_key(id),
            },
    {
        let mut i: usize = 0;
        while i < self.sw_assocs.len()
            invariant
                self.wf(),
                i <= self.sw_assocs.len(),
                forall|j: int| 0 <= j < i ==> self.sw_pairs()[j].0 != id,
            decreases self.sw_assocs@.len() - i,
        {
            if self.sw_assocs[i].0 == id {
                proof {
                    lemma_kv_map_index(self.sw_pairs(), i as int);
                }
                return Some(&self.sw_assocs[i].1);
            }
            i += 1;
        }
        proof {
            lemma_kv_map_absent(self.sw_pairs(), id);
        }
        None
    }
}

/// One decoded protocol packet, reduced to what task resolution reads:
/// the task-identifying field received over the trace wire, or a
/// description of a packet that names no task.
pub enum TracePacket {
    /// A core exception, self-describing by name on the wire.
    InternalTask { name: String },
    /// A peripheral interrupt, known only by its vector number.
    ExternalTask { nr: u8 },
    /// A traced software task, known by its assigned id.
    SoftwareTask { id: u32 },
    /// A packet that names no task (overflows, raw data, ...).
    Unknown { desc: String },
}

/// A batch of decoded packets sharing one timestamp (in trace clock
/// ticks).
pub struct TraceData {
    pub ticks: u64,
    pub packets: Vec<TracePacket>,
}

/// A resolved event: the packet with its task-identifying field
/// replaced by the recovered task path.
pub enum Event {
    Task { path: TaskPath },
    Unknown { desc: String },
}

/// A resolved batch: every packet of one `TraceData`, resolved.
pub struct EventChunk {
    pub ticks: u64,
    pub events: Vec<Event>,
}

/// The mathematical value of a resolved event.
pub enum EventModel {
    Task(Seq<Seq<char>>),
    Unknown(Seq<char>),
}

pub open spec fn event_model(e: Event) -> EventModel {
    match e {
        Event::Task { path } => EventModel::Task(path@),
        Event::Unknown { desc } => EventModel::Unknown(desc@),
    }
}

/// What resolving one packet against the maps yields: `None` when the
/// observed identifier has no entry.
pub open spec fn resolve_packet_model(m: TaskResolveMaps, p: TracePacket) -> Option<EventModel> {
    match p {
        TracePacket::InternalTask { name } => if m.exc_map().contains_key(name@) {
            Some(EventModel::Task(m.exc_map()[name@]))
        } else {
            None
        },
        TracePacket::ExternalTask { nr } => if m.int_map().contains_key(nr) {
            Some(EventModel::Task(m.int_map()[nr].0))
        } else {
            None
        },
        TracePacket::SoftwareTask { id } => if m.sw_map().contains_key(id) {
            Some(EventModel::Task(m.sw_map()[id]))
        } else {
            None
        },
        TracePacket::Unknown { desc } => Some(EventModel::Unknown(desc@)),
    }
}

/// An observed identifier with no map entry, reported by resolution.
#[derive(Debug)]
pub enum RecoveryError {
    UnknownException { name: String },
    UnknownInterrupt { nr: u8 },
    UnknownSoftwareTask { id: u32 },
}

/// The mathematical value of a resolution error.
pub enum RecoveryErrorModel {
    UnknownException(Seq<char>),
    UnknownInterrupt(u8),
    UnknownSoftwareTask(u32),
}

pub open spec fn recovery_error_model(e: RecoveryError) -> RecoveryErrorModel {
    match e {
        RecoveryError::UnknownException { name } => RecoveryErrorModel::UnknownException(name@),
        RecoveryError::UnknownInterrupt { nr } => RecoveryErrorModel::UnknownInterrupt(nr),
        RecoveryError::UnknownSoftwareTask { id } => RecoveryErrorModel::UnknownSoftwareTask(id),
    }
}

/// The error that an unresolvable packet gives rise to.
pub open spec fn unresolved_model(p: TracePacket) -> RecoveryErrorModel {
    match p {
        TracePacket::InternalTask { name } => RecoveryErrorModel::UnknownException(name@),
        TracePacket::ExternalTask { nr } => RecoveryErrorModel::UnknownInterrupt(nr),
        TracePacket::SoftwareTask { id } => RecoveryErrorModel::UnknownSoftwareTask(id),
        TracePacket::Unknown { desc } => RecoveryErrorModel::UnknownException(desc@),
    }
}

/// Session metadata: the recovered task maps, the target's reset
/// timestamp and the trace clock frequency. Immutable once created.
pub struct Metadata {
    pub maps: TaskResolveMaps,
    pub reset_timestamp: String,
    pub trace_clock_freq: u64,
}

impl Metadata {
    /// The single constructor; fields are never mutated afterwards.
    pub fn new(maps: TaskResolveMaps, reset_timestamp: String, trace_clock_freq: u64) -> (r:
        Metadata)
        ensures
            r.maps == maps,
            r.reset_timestamp == reset_timestamp,
            r.trace_clock_freq == trace_clock_freq,
    {
        Metadata { maps, reset_timestamp, trace_clock_freq }
    }

    /// Resolves every packet of a batch against the maps. Succeeds if
    /// and only if every task-identifying field has an entry; the
    /// first packet without one is reported, and resolution neither
    /// mutates the metadata nor reorders the batch.
    pub fn resolve_event_chunk(&self, data: &TraceData) -> (r: Result<EventChunk, RecoveryError>)
        requires
            self.maps.wf(),
        ensures
            match r {
                Ok(chunk) => {
                    &&& chunk.ticks == data.ticks
                    &&& chunk.events@.len() == data.packets@.len()
                    &&& forall|i: int|
                        0 <= i < data.packets@.len()
                            ==> resolve_packet_model(self.maps, data.packets@[i]) == Some(
                            event_model(#[trigger] chunk.events@[i]),
                        )
                },
                Err(e) => exists|i: int|
                    {
                        &&& 0 <= i < data.packets@.len()
                        &&& resolve_packet_model(self.maps, #[trigger] data.packets@[i]) is None
                        &&& forall|j: int|
                            0 <= j < i
                                ==> resolve_packet_model(self.maps, #[trigger] data.packets@[j])
                                is Some
                        &&& recovery_error_model(e) == unresolved_model(data.packets@[i])
                    },
            },
    {
        let mut events: Vec<Event> = Vec::new();
        let mut i: usize = 0;
        while i < data.packets.len()
            invariant
                self.maps.wf(),
                i <= data.packets@.len(),
                events@.len() == i,
                forall|j: int|
                    0 <= j < i ==> resolve_packet_model(self.maps, data.packets@[j]) == Some(
                        event_model(#[trigger] events@[j]),
                    ),
            decreases data.packets@.len() - i,
        {
            match &data.packets[i] {
                TracePacket::InternalTask { name } => {
                    match self.maps.lookup_exception(name) {
                        Some(p) => events.push(Event::Task { path: p.duplicate() }),
                        None => {
                            let e = RecoveryError::UnknownException { name: name.clone() };
                            proof {
                                assert forall|j: int| 0 <= j < i as int implies resolve_packet_model(
                                    self.maps,
                                    #[trigger] data.packets@[j],
                                ) is Some by {
                                    assert(resolve_packet_model(self.maps, data.packets@[j])
                                        == Some(event_model(events@[j])));
                                }
                                assert(resolve_packet_model(self.maps, data.packets@[i as int]) is None);
                                assert(recovery_error_model(e) == unresolved_model(
                                    data.packets@[i as int],
                                ));
                            }
                            return Err(e);
                        },
                    }
                },
                TracePacket::ExternalTask { nr } => {
                    match self.maps.lookup_interrupt(*nr) {
                        Some(p) => events.push(Event::Task { path: p.0.duplicate() }),
                        None => {
                            let e = RecoveryError::UnknownInterrupt { nr: *nr };
                            proof {
                                assert forall|j: int| 0 <= j < i as int implies resolve_packet_model(
                                    self.maps,
                                    #[trigger] data.packets@[j],
                                ) is Some by {
                                    assert(resolve_packet_model(self.maps, data.packets@[j])
                                        == Some(event_model(events@[j])));
                                }
                                assert(resolve_packet_model(self.maps, data.packets@[i as int]) is None);
                                assert(recovery_error_model(e) == unresolved_model(
                                    data.packets@[i as int],
                                ));
                            }
                            return Err(e);
                        },
                    }
                },
                TracePacket::SoftwareTask { id } => {
                    match self.maps.lookup_sw_task(*id) {
                        Some(p) => events.push(Event::Task { path: p.duplicate() }),
                        None => {
                            let e = RecoveryError::UnknownSoftwareTask { id: *id };
                            proof {
                                assert forall|j: int| 0 <= j < i as int implies resolve_packet_model(
                                    self.maps,
                                    #[trigger] data.packets@[j],
                                ) is Some by {
                                    assert(resolve_packet_model(self.maps, data.packets@[j])
                                        == Some(event_model(events@[j])));
                                }
                                assert(resolve_packet_model(self.maps, data.packets@[i as int]) is None);
                                assert(recovery_error_model(e) == unresolved_model(
                                    data.packets@[i as int],
                                ));
                            }
                            return Err(e);
                        },
                    }
                },
                TracePacket::Unknown { desc } => {
                    events.push(Event::Unknown { desc: desc.clone() });
                },
            }
            i += 1;
        }
        Ok(EventChunk { ticks: data.ticks, events })
    }
}

} // verus!
