//! The two sinks a trace session drains into: a durable trace file
//! (header first, then one JSON value per batch, no separators) and a
//! live frontend stream of resolved events. The sinks frame the bytes;
//! writing them to the file or the socket is the caller's I/O.

use vstd::prelude::*;

use crate::json::{
    enc_stream, enc_val, encode_event_chunk, encode_metadata, encode_trace_data, json_of_event,
    json_of_event_chunk, json_of_event_model, json_of_metadata, json_of_trace_data, jnum,
    json_wf, lemma_enc_stream_snoc, lemma_json_of_metadata_wf, lemma_json_of_trace_data_wf,
    lemma_stream_round_trip, maps_text_wf, parse_stream, text_wf, trace_data_text_wf, JsonVal,
};
use crate::recovery::{
    event_model, resolve_packet_model, EventModel, Metadata, TaskResolveMaps, TraceData,
};
use crate::sources::SourceError;
use vstd::string::StringExecFns;

verus! {

/// How a sink failed.
#[derive(Debug)]
pub enum SinkError {
    /// Creating the trace file or its directory failed.
    SetupIOError { reason: String },
    /// No enclosing repository was found above the artifact.
    NoGitRoot { path: String },
    /// Reading the repository's description failed.
    GitError { reason: String },
    /// Writing framed bytes out failed.
    DrainIOError { reason: String },
    /// Resetting the target failed.
    ResetError { reason: String },
    /// The trace source failed while the sink was set up.
    SourceFailed { err: SourceError },
}

/// A drain target for decoded batches.
pub trait Sink: Sized {
    /// When the sink is ready to drain at all.
    spec fn drain_ready(&self) -> bool;

    /// Which batches the sink accepts.
    spec fn accepts(&self, data: TraceData) -> bool;

    /// What draining one batch did: relates the sink's state after
    /// (`self`) to the state before (`pre`), the batch and the result.
    spec fn drain_post(&self, pre: Self, data: TraceData, r: Result<(), SinkError>) -> bool;

    fn drain(&mut self, data: TraceData) -> (r: Result<(), SinkError>)
        requires
            old(self).drain_ready(),
            old(self).accepts(data),
        ensures
            final(self).drain_post(*old(self), data, r),
    ;

    fn describe(&self) -> String;
}

/// A character the timestamp rendering may produce.
pub open spec fn timestamp_char(c: char) -> bool {
    ||| ('0' <= c && c <= '9')
    ||| c == '-'
    ||| c == ':'
    ||| c == 'T'
    ||| c == '+'
}

/// A non-empty rendering over the timestamp alphabet.
pub open spec fn timestamp_text(s: Seq<char>) -> bool {
    s.len() > 0 && forall|k: int| 0 <= k < s.len() ==> timestamp_char(#[trigger] s[k])
}

/// The timestamp alphabet holds neither quote nor backslash.
pub proof fn lemma_timestamp_text_wf(s: Seq<char>)
    requires
        timestamp_text(s),
    ensures
        text_wf(s),
{
    assert forall|k: int| 0 <= k < s.len() implies s[k] != '"' && s[k] != '\\' by {
        assert(timestamp_char(s[k]));
    }
}

/// Relies on chrono's Local::now and DateTime::format: the local time,
/// rendered to second precision as year-month-dayThour:minute:second.
/// That rendering is non-empty and made of digits, '-', 'T' and ':',
/// with a leading sign for years outside 0-9999.
#[verifier::external_body]
fn local_timestamp() -> (r: String)
    ensures
        timestamp_text(r@),
{
    chrono::Local::now().format("%Y-%m-%dT%H:%M:%S").to_string()
}

/// The trace file's extension.
pub open spec fn trace_file_ext() -> Seq<char> {
    ".trace"@
}

/// The name a trace file gets: artifact, abbreviated revision, local
/// date, extension.
pub open spec fn trace_file_name_text(
    artifact: Seq<char>,
    git_desc: Seq<char>,
    date: Seq<char>,
) -> Seq<char> {
    artifact + "-g"@ + git_desc + "-"@ + date + ".trace"@
}

/// Builds a trace file's name from its parts.
pub fn trace_file_name(artifact: &str, git_desc: &str, date: &str) -> (r: String)
    ensures
        r@ == trace_file_name_text(artifact@, git_desc@, date@),
{
    let mut s = String::from_str(artifact);
    s.append("-g");
    s.append(git_desc);
    s.append("-");
    s.append(date);
    s.append(".trace");
    proof {
        assert(s@ =~= trace_file_name_text(artifact@, git_desc@, date@));
    }
    s
}

/// Whether a directory entry's name is a previously recorded trace
/// file, by its extension.
pub fn is_trace_file_name(name: &str) -> (r: bool)
    ensures
        r == (name@.len() >= 6 && name@.subrange(
            name@.len() - 6,
            name@.len() as int,
        ) == trace_file_ext()),
{
    let n = name.unicode_len();
    if n < 6 {
        return false;
    }
    let tail = name.substring_char(n - 6, n);
    let r = crate::text::str_eq(tail, ".trace");
    proof {
        assert(tail@ == name@.subrange(name@.len() - 6, name@.len() as int));
    }
    r
}

/// The durable sink: it owns the trace file's name and the framed
/// bytes. `written` is every value framed so far; the text the file
/// holds once the caller flushes `pending` is exactly the stream of
/// those values.
pub struct FileSink {
    /// The file's name, fixed at creation.
    pub name: String,
    /// Framed text the caller has not yet taken for writing.
    pub pending: String,
    /// Framed text the caller already took.
    pub taken: Ghost<Seq<char>>,
    /// Every value framed so far, header first.
    pub written: Ghost<Seq<JsonVal>>,
}

impl FileSink {
    /// The framed text equals the stream of the framed values, and
    /// every framed value needs no escaping.
    pub open spec fn wf(self) -> bool {
        &&& self.taken@ + self.pending@ == enc_stream(self.written@)
        &&& forall|k: int| 0 <= k < self.written@.len() ==> json_wf(#[trigger] self.written@[k])
    }

    /// Names a fresh trace file for the artifact, stamping the name
    /// with the revision description and the local date. The caller
    /// creates the file (never overwriting) and, when asked to clear
    /// previous traces, removes the old ones first.
    pub fn generate_trace_file(artifact_name: &str, git_desc: &str) -> (r: FileSink)
        ensures
            exists|date: Seq<char>|
                #![auto]
                r.name@ == trace_file_name_text(artifact_name@, git_desc@, date)
                    && timestamp_text(date),
            r.pending@ == Seq::<char>::empty(),
            r.taken@ == Seq::<char>::empty(),
            r.written@ == Seq::<JsonVal>::empty(),
            r.wf(),
    {
        let date = local_timestamp();
        let name = trace_file_name(artifact_name, git_desc, date.as_str());
        let sink = FileSink {
            name,
            pending: String::new(),
            taken: Ghost(Seq::empty()),
            written: Ghost(Seq::empty()),
        };
        proof {
            assert(enc_stream(Seq::<JsonVal>::empty()) == Seq::<char>::empty());
            assert(sink.taken@ + sink.pending@ =~= Seq::<char>::empty());
        }
        sink
    }

    /// Takes the session's timestamp, runs the caller's target reset
    /// exactly once, and on the reset's success frames the metadata
    /// header as the file's first value; the result reports the
    /// reset's own outcome, and a failed reset leaves the sink
    /// untouched and is fatal.
    pub fn init<F: FnOnce() -> Result<(), String>>(
        &mut self,
        maps: TaskResolveMaps,
        freq: u64,
        reset_fun: F,
    ) -> (r: Result<Metadata, SinkError>)
        requires
            old(self).wf(),
            old(self).written@.len() == 0,
            maps_text_wf(maps),
            reset_fun.requires(()),
        ensures
            final(self).name == old(self).name,
            r is Ok ==> exists|u: Result<(), String>|
                u is Ok && #[trigger] call_ensures(reset_fun, (), u),
            r is Err ==> exists|u: Result<(), String>|
                u is Err && #[trigger] call_ensures(reset_fun, (), u),
            match r {
                Ok(m) => {
                    &&& m.maps == maps
                    &&& m.trace_clock_freq == freq
                    &&& timestamp_text(m.reset_timestamp@)
                    &&& final(self).written@ == seq![json_of_metadata(m)]
                    &&& final(self).pending@ == old(self).pending@ + enc_val(json_of_metadata(m))
                    &&& final(self).taken == old(self).taken
                    &&& final(self).wf()
                },
                Err(e) => *final(self) == *old(self) && e is ResetError,
            },
    {
        let ts = local_timestamp();
        let reset_result = reset_fun();
        match reset_result {
            Ok(_) => {
                proof {
                    assert(call_ensures(reset_fun, (), reset_result));
                    assert(reset_result is Ok);
                }
                let metadata = Metadata::new(maps, ts, freq);
                let json = encode_metadata(&metadata);
                self.pending.append(json.as_str());
                proof {
                    self.written@ = seq![json_of_metadata(metadata)];
                }
                proof {
                    assert(enc_stream(Seq::<JsonVal>::empty()) == Seq::<char>::empty());
                    assert(old(self).written@ =~= Seq::<JsonVal>::empty());
                    lemma_enc_stream_snoc(Seq::<JsonVal>::empty(), json_of_metadata(metadata));
                    assert(Seq::<JsonVal>::empty().push(json_of_metadata(metadata)) =~= seq![
                        json_of_metadata(metadata),
                    ]);
                    assert(self.taken@ + self.pending@ =~= enc_stream(self.written@));
                    lemma_timestamp_text_wf(metadata.reset_timestamp@);
                    lemma_json_of_metadata_wf(metadata);
                }
                Ok(metadata)
            },
            Err(reason) => Err(SinkError::ResetError { reason }),
        }
    }

    /// Frames one batch after everything framed before; nothing is
    /// reordered, duplicated or dropped, and framing cannot fail. The
    /// batch's text must need no escaping, which every identifier-
    /// and digit-shaped field satisfies.
    pub fn drain_batch(&mut self, data: &TraceData) -> (r: Result<(), SinkError>)
        requires
            old(self).wf(),
            trace_data_text_wf(*data),
        ensures
            r is Ok,
            final(self).name == old(self).name,
            final(self).taken == old(self).taken,
            final(self).written@ == old(self).written@.push(json_of_trace_data(*data)),
            final(self).pending@ == old(self).pending@ + enc_val(json_of_trace_data(*data)),
            final(self).wf(),
    {
        let json = encode_trace_data(data);
        self.pending.append(json.as_str());
        proof {
            self.written@ = self.written@.push(json_of_trace_data(*data));
        }
        proof {
            lemma_enc_stream_snoc(old(self).written@, json_of_trace_data(*data));
            assert(self.taken@ + self.pending@ =~= enc_stream(self.written@));
            lemma_json_of_trace_data_wf(*data);
        }
        Ok(())
    }

    /// Hands the framed text to the file writer and remembers that it
    /// left; what was taken plus what is pending is still exactly the
    /// written stream.
    pub fn take_pending(&mut self) -> (r: String)
        requires
            old(self).wf(),
        ensures
            r@ == old(self).pending@,
            final(self).pending@ == Seq::<char>::empty(),
            final(self).taken@ == old(self).taken@ + r@,
            final(self).written == old(self).written,
            final(self).name == old(self).name,
            final(self).wf(),
    {
        let out = self.pending.clone();
        self.pending = String::new();
        proof {
            self.taken@ = self.taken@ + out@;
            assert(self.taken@ + self.pending@ =~= enc_stream(self.written@));
        }
        out
    }

    /// The sink's identity string for diagnostics.
    pub fn describe_sink(&self) -> (r: String)
        ensures
            r@ == "file output: "@ + self.name@,
    {
        let mut s = String::from_str("file output: ");
        s.append(self.name.as_str());
        proof {
            assert(s@ =~= "file output: "@ + self.name@);
        }
        s
    }
}

impl Sink for FileSink {
    open spec fn drain_ready(&self) -> bool {
        self.wf()
    }

    open spec fn accepts(&self, data: TraceData) -> bool {
        trace_data_text_wf(data)
    }

    open spec fn drain_post(&self, pre: Self, data: TraceData, r: Result<(), SinkError>) -> bool {
        &&& r is Ok
        &&& self.name == pre.name
        &&& self.taken == pre.taken
        &&& self.written@ == pre.written@.push(json_of_trace_data(data))
        &&& self.pending@ == pre.pending@ + enc_val(json_of_trace_data(data))
        &&& self.wf()
    }

    fn drain(&mut self, data: TraceData) -> (r: Result<(), SinkError>) {
        self.drain_batch(&data)
    }

    fn describe(&self) -> String {
        self.describe_sink()
    }
}

/// The model of a packet once resolved, total where resolution
/// succeeds.
pub open spec fn resolved_event_model(m: TaskResolveMaps, p: crate::recovery::TracePacket)
    -> EventModel {
    match resolve_packet_model(m, p) {
        Some(em) => em,
        None => EventModel::Unknown(Seq::empty()),
    }
}

/// Every packet of the batch has a map entry.
pub open spec fn chunk_resolvable(m: TaskResolveMaps, d: TraceData) -> bool {
    forall|k: int|
        0 <= k < d.packets@.len() ==> resolve_packet_model(m, #[trigger] d.packets@[k]) is Some
}

/// The message a fully resolvable batch turns into.
pub open spec fn json_of_resolved(m: TaskResolveMaps, d: TraceData) -> JsonVal {
    JsonVal::Arr(
        seq![
            jnum(d.ticks as nat),
            JsonVal::Arr(
                Seq::new(
                    d.packets@.len(),
                    |k: int| json_of_event_model(resolved_event_model(m, d.packets@[k])),
                ),
            ),
        ],
    )
}

/// The live sink: resolves each batch against the session metadata and
/// queues one message per resolvable batch for the frontend channel.
pub struct FrontendSink {
    /// The session's metadata, immutable for the session.
    pub metadata: Metadata,
    /// Messages framed and not yet sent, oldest first.
    pub outbox: Vec<String>,
}

impl FrontendSink {
    pub fn new(metadata: Metadata) -> (r: FrontendSink)
        ensures
            r.metadata == metadata,
            r.outbox@.len() == 0,
    {
        FrontendSink { metadata, outbox: Vec::new() }
    }

    /// Resolves one batch. A batch whose identifiers all resolve is
    /// framed and queued; one with an unknown identifier is dropped
    /// and the session continues — the failure is never fatal.
    pub fn drain_chunk(&mut self, data: &TraceData) -> (r: Result<(), SinkError>)
        requires
            old(self).metadata.maps.wf(),
        ensures
            r is Ok,
            final(self).metadata == old(self).metadata,
            chunk_resolvable(old(self).metadata.maps, *data) ==> final(self).outbox@.len() == old(
                self,
            ).outbox@.len() + 1 && final(self).outbox@.last()@ == enc_val(
                json_of_resolved(old(self).metadata.maps, *data),
            ) && final(self).outbox@.subrange(0, old(self).outbox@.len() as int) == old(
                self,
            ).outbox@,
            !chunk_resolvable(old(self).metadata.maps, *data) ==> final(self).outbox == old(
                self,
            ).outbox,
    {
        match self.metadata.resolve_event_chunk(data) {
            Ok(chunk) => {
                let msg = encode_event_chunk(&chunk);
                proof {
                    let m = self.metadata.maps;
                    assert forall|k: int|
                        0 <= k < data.packets@.len() implies resolve_packet_model(
                        m,
                        #[trigger] data.packets@[k],
                    ) is Some by {
                        assert(resolve_packet_model(m, data.packets@[k]) == Some(
                            event_model(chunk.events@[k]),
                        ));
                    }
                    assert(chunk_resolvable(m, *data));
                    let evs = Seq::new(
                        chunk.events@.len(),
                        |k: int| json_of_event(chunk.events@[k]),
                    );
                    let res = Seq::new(
                        data.packets@.len(),
                        |k: int| json_of_event_model(resolved_event_model(m, data.packets@[k])),
                    );
                    assert forall|k: int| 0 <= k < evs.len() implies evs[k] == res[k] by {
                        assert(resolve_packet_model(m, data.packets@[k]) == Some(
                            event_model(chunk.events@[k]),
                        ));
                    }
                    assert(evs =~= res);
                    assert(json_of_event_chunk(chunk) == json_of_resolved(m, *data));
                }
                let ghost pre_outbox = self.outbox@;
                self.outbox.push(msg);
                proof {
                    assert(self.outbox@.subrange(0, pre_outbox.len() as int) =~= pre_outbox);
                }
                Ok(())
            },
            Err(_) => {
                proof {
                    assert(!chunk_resolvable(self.metadata.maps, *data));
                }
                Ok(())
            },
        }
    }

    /// The sink's identity string for diagnostics.
    pub fn describe_sink(&self) -> (r: String)
        ensures
            r@ == "frontend socket"@,
    {
        String::from_str("frontend socket")
    }
}

impl Sink for FrontendSink {
    open spec fn drain_ready(&self) -> bool {
        self.metadata.maps.wf()
    }

    open spec fn accepts(&self, data: TraceData) -> bool {
        true
    }

    open spec fn drain_post(&self, pre: Self, data: TraceData, r: Result<(), SinkError>) -> bool {
        &&& r is Ok
        &&& self.metadata == pre.metadata
        &&& chunk_resolvable(pre.metadata.maps, data) ==> self.outbox@.len() == pre.outbox@.len()
            + 1 && self.outbox@.last()@ == enc_val(json_of_resolved(pre.metadata.maps, data))
            && self.outbox@.subrange(0, pre.outbox@.len() as int) == pre.outbox@
        &&& !chunk_resolvable(pre.metadata.maps, data) ==> self.outbox == pre.outbox
    }

    fn drain(&mut self, data: TraceData) -> (r: Result<(), SinkError>) {
        self.drain_chunk(&data)
    }

    fn describe(&self) -> String {
        self.describe_sink()
    }
}


/// A trace file as the sink leaves it is recoverable: parsing the text
/// the writer took plus what is still pending, as a self-delimited
/// JSON stream, yields exactly the framed values — the header and the
/// drained batches, in order.
pub proof fn lemma_file_sink_recoverable(s: FileSink)
    requires
        s.wf(),
    ensures
        parse_stream(s.taken@ + s.pending@, 0) == Some(s.written@),
{
    lemma_stream_round_trip(s.written@);
}

} // verus!
