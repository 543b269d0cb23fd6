//! What the trace sources decide for themselves: classifying the
//! receive buffer's remaining capacity, and their diagnostic identity
//! strings. Reading the device and resetting the target are I/O and
//! stay with the callers that own the hardware handles.

use vstd::prelude::*;

use crate::recovery::{TraceData, TracePacket};
use crate::text::{dec_digits, u64_to_string};
use vstd::string::StringExecFns;

verus! {

/// How a trace source failed.
#[derive(Debug)]
pub enum SourceError {
    /// The device rejected its configuration.
    SetupError { reason: String },
    /// Opening or configuring the device failed on I/O.
    SetupIOError { reason: String },
    /// The probe rejected the trace configuration.
    SetupProbeError { reason: String },
    /// A read from the device failed.
    IterIOError { reason: String },
    /// A read through the probe failed.
    IterProbeError { reason: String },
    /// Resetting the target failed.
    ResetError { reason: String },
    /// The decoder rejected the byte stream.
    DecodeError { reason: String },
}

/// Remaining capacity of the kernel receive buffer.
#[derive(Debug)]
pub enum BufferStatus {
    /// Remaining bytes; the consumer keeps up.
    Avail(i64),
    /// Remaining bytes and the page size they are measured against:
    /// under a quarter page is left, data loss is imminent.
    AvailWarn(i64, i64),
    /// The capacity could not be queried.
    Unknown,
}

/// The status that queued bytes and the system page size denote.
pub open spec fn buffer_status_of(avail_bytes: int, page_size: int) -> BufferStatus {
    if page_size - avail_bytes < page_size / 4 {
        BufferStatus::AvailWarn((page_size - avail_bytes) as i64, page_size as i64)
    } else {
        BufferStatus::Avail((page_size - avail_bytes) as i64)
    }
}

/// The capacity estimate a status reports.
pub open spec fn buffer_headroom(s: BufferStatus) -> int {
    match s {
        BufferStatus::Avail(n) => n as int,
        BufferStatus::AvailWarn(n, _) => n as int,
        BufferStatus::Unknown => 0,
    }
}

/// Classifies the receive buffer: the remaining capacity is the page
/// size less the queued bytes, and dropping under a quarter page turns
/// the answer into a warning. More queued bytes than a page is the
/// worst case of the same warning, with negative remaining capacity.
pub fn classify_buffer(avail_bytes: i64, page_size: i64) -> (r: BufferStatus)
    requires
        0 <= avail_bytes,
        0 < page_size,
    ensures
        r == buffer_status_of(avail_bytes as int, page_size as int),
{
    let headroom = page_size - avail_bytes;
    if headroom < page_size / 4 {
        BufferStatus::AvailWarn(headroom, page_size)
    } else {
        BufferStatus::Avail(headroom)
    }
}

/// With no read draining the buffer, the queued bytes only grow, and
/// the reported capacity estimate never grows with them: a second
/// query reports at most what the first did.
pub proof fn lemma_buffer_estimate_nonincreasing(a1: int, a2: int, page: int)
    requires
        0 <= a1 <= a2 <= i64::MAX,
        0 < page <= i64::MAX,
    ensures
        buffer_headroom(buffer_status_of(a2, page)) <= buffer_headroom(
            buffer_status_of(a1, page),
        ),
{
}

/// The identity string of a serial source on the given descriptor.
pub fn describe_tty(fd: u64) -> (r: String)
    ensures
        r@ == "TTY (fd: "@ + dec_digits(fd as nat) + ")"@,
{
    let mut s = String::from_str("TTY (fd: ");
    let digits = u64_to_string(fd);
    s.append(digits.as_str());
    s.append(")");
    proof {
        assert(s@ =~= "TTY (fd: "@ + dec_digits(fd as nat) + ")"@);
    }
    s
}

/// The identity string of a probe source attached to the named target.
pub fn describe_probe(target_name: &str) -> (r: String)
    ensures
        r@ == "probe (attached to "@ + target_name@ + ")"@,
{
    let mut s = String::from_str("probe (attached to ");
    s.append(target_name);
    s.append(")");
    proof {
        assert(s@ =~= "probe (attached to "@ + target_name@ + ")"@);
    }
    s
}


/// One outcome of pulling the streaming decoder, reduced to what batch
/// assembly decides on: a decoded packet, a local timestamp, or a
/// stream the decoder rejected.
pub enum DecoderOutput {
    Packet { packet: TracePacket },
    Timestamp { ticks: u64 },
    Malformed { reason: String },
}

/// Assembles decoded packets into timestamped batches: packets gather
/// until a local timestamp closes the group, exactly in arrival order;
/// a rejected stream is an error, never a silent end of stream.
pub struct BatchAssembler {
    /// Packets decoded since the last timestamp, oldest first.
    pub pending: Vec<TracePacket>,
}

impl BatchAssembler {
    pub fn new() -> (r: BatchAssembler)
        ensures
            r.pending@.len() == 0,
    {
        BatchAssembler { pending: Vec::new() }
    }

    /// Feeds one decoder outcome. A packet joins the pending group and
    /// yields nothing; a timestamp closes the group as one batch, in
    /// order; a malformed stream reports a decode error and keeps the
    /// group.
    pub fn accept(&mut self, output: DecoderOutput) -> (r: Result<Option<TraceData>, SourceError>)
        ensures
            match output {
                DecoderOutput::Packet { packet } => {
                    &&& r is Ok
                    &&& r matches Ok(b) && b is None
                    &&& final(self).pending@ == old(self).pending@.push(packet)
                },
                DecoderOutput::Timestamp { ticks } => {
                    &&& r matches Ok(b) && b matches Some(d) && d.ticks == ticks && d.packets@
                        == old(self).pending@
                    &&& final(self).pending@.len() == 0
                },
                DecoderOutput::Malformed { reason } => {
                    &&& r matches Err(e) && e matches SourceError::DecodeError { reason: q }
                        && q@ == reason@
                    &&& final(self).pending == old(self).pending
                },
            },
    {
        match output {
            DecoderOutput::Packet { packet } => {
                self.pending.push(packet);
                Ok(None)
            },
            DecoderOutput::Timestamp { ticks } => {
                let packets = self.pending.split_off(0);
                proof {
                    assert(packets@ =~= old(self).pending@);
                    assert(self.pending@ =~= Seq::<TracePacket>::empty());
                }
                Ok(Some(TraceData { ticks, packets }))
            },
            DecoderOutput::Malformed { reason } => {
                Err(SourceError::DecodeError { reason })
            },
        }
    }
}

} // verus!
