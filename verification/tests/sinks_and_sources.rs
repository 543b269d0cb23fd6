use rtic_scope::recovery::{
    Event, EventChunk, Metadata, RecoveryError, TaskPath, TaskResolveMaps, TraceData, TracePacket,
};
use rtic_scope::sinks::{trace_file_name, FileSink, FrontendSink, Sink};
use rtic_scope::sources::{
    classify_buffer, describe_probe, describe_tty, BatchAssembler, BufferStatus, DecoderOutput,
    SourceError,
};

fn path(segs: &[&str]) -> TaskPath {
    TaskPath { segments: segs.iter().map(|s| s.to_string()).collect() }
}

fn small_maps() -> TaskResolveMaps {
    TaskResolveMaps {
        exceptions: vec![("SysTick".to_string(), path(&["app", "tick"]))],
        interrupts: vec![(37, (path(&["app", "serial_task"]), "UART0".to_string()))],
        sw_assocs: vec![(0, path(&["app", "foo"]))],
    }
}

fn metadata() -> Metadata {
    Metadata::new(small_maps(), "2021-06-16T17:13:16".to_string(), 16_000_000)
}

#[test]
fn buffer_with_plenty_of_headroom_is_normal() {
    // 100 queued bytes against a 4096-byte page: not a warning.
    match classify_buffer(100, 4096) {
        BufferStatus::Avail(n) => assert_eq!(n, 3996),
        _ => panic!("expected a normal status"),
    }
}

#[test]
fn buffer_under_a_quarter_page_warns() {
    // Only 900 bytes of headroom remain: 900 < 4096 / 4.
    match classify_buffer(4096 - 900, 4096) {
        BufferStatus::AvailWarn(n, page) => {
            assert_eq!(n, 900);
            assert_eq!(page, 4096);
        }
        _ => panic!("expected a warning status"),
    }
}

#[test]
fn buffer_estimate_never_grows_without_a_read() {
    // Queued bytes only grow while nothing reads; the estimate shrinks.
    let first = classify_buffer(100, 4096);
    let second = classify_buffer(250, 4096);
    let headroom = |s: &BufferStatus| match s {
        BufferStatus::Avail(n) => *n,
        BufferStatus::AvailWarn(n, _) => *n,
        BufferStatus::Unknown => 0,
    };
    assert!(headroom(&second) <= headroom(&first));
}

#[test]
fn source_identity_strings() {
    assert_eq!(describe_tty(5), "TTY (fd: 5)");
    assert_eq!(describe_probe("stm32f401"), "probe (attached to stm32f401)");
}

#[test]
fn trace_file_names_encode_artifact_revision_and_date() {
    assert_eq!(
        trace_file_name("blinky", "baadf00-dirty", "2021-06-16T17:13:16"),
        "blinky-gbaadf00-dirty-2021-06-16T17:13:16.trace"
    );
}

#[test]
fn generated_trace_file_is_fresh_and_named() {
    let sink = FileSink::generate_trace_file("blinky", "baadf00");
    assert!(sink.name.starts_with("blinky-gbaadf00-"));
    assert!(sink.name.ends_with(".trace"));
    assert!(sink.pending.is_empty());
}

#[test]
fn resolving_a_chunk_substitutes_task_paths() {
    let m = metadata();
    let data = TraceData {
        ticks: 42,
        packets: vec![
            TracePacket::InternalTask { name: "SysTick".to_string() },
            TracePacket::ExternalTask { nr: 37 },
            TracePacket::SoftwareTask { id: 0 },
            TracePacket::Unknown { desc: "overflow".to_string() },
        ],
    };
    let chunk = m.resolve_event_chunk(&data).unwrap();
    assert_eq!(chunk.ticks, 42);
    assert_eq!(chunk.events.len(), 4);
    match &chunk.events[0] {
        Event::Task { path } => assert_eq!(path.segments, vec!["app", "tick"]),
        _ => panic!("expected a task event"),
    }
    match &chunk.events[1] {
        Event::Task { path } => assert_eq!(path.segments, vec!["app", "serial_task"]),
        _ => panic!("expected a task event"),
    }
    match &chunk.events[2] {
        Event::Task { path } => assert_eq!(path.segments, vec!["app", "foo"]),
        _ => panic!("expected a task event"),
    }
    match &chunk.events[3] {
        Event::Unknown { desc } => assert_eq!(desc, "overflow"),
        _ => panic!("expected the packet to pass through"),
    }
}

#[test]
fn unknown_interrupt_number_names_itself_in_the_error() {
    let m = metadata();
    let data = TraceData { ticks: 1, packets: vec![TracePacket::ExternalTask { nr: 99 }] };
    match m.resolve_event_chunk(&data) {
        Err(RecoveryError::UnknownInterrupt { nr }) => assert_eq!(nr, 99),
        _ => panic!("expected the unknown number to be reported"),
    }
}

#[test]
fn frontend_sink_skips_unresolvable_batches_and_continues() {
    let mut sink = FrontendSink::new(metadata());
    let bad = TraceData { ticks: 1, packets: vec![TracePacket::ExternalTask { nr: 99 }] };
    // The failure is logged and skipped, never fatal to the session.
    assert!(sink.drain(bad).is_ok());
    assert_eq!(sink.outbox.len(), 0);
    let good = TraceData { ticks: 2, packets: vec![TracePacket::SoftwareTask { id: 0 }] };
    assert!(sink.drain(good).is_ok());
    assert_eq!(sink.outbox.len(), 1);
    assert_eq!(sink.outbox[0], "[\"2\",[[\"task\",[\"app\",\"foo\"]]]]");
}

#[test]
fn file_sink_writes_header_then_batches_without_separators() {
    let mut sink = FileSink::generate_trace_file("blinky", "baadf00");
    let meta = sink.init(small_maps(), 16_000_000, || Ok(())).unwrap();
    assert_eq!(meta.trace_clock_freq, 16_000_000);
    let b1 = TraceData { ticks: 1, packets: vec![TracePacket::ExternalTask { nr: 37 }] };
    let b2 = TraceData { ticks: 2, packets: vec![TracePacket::SoftwareTask { id: 0 }] };
    assert!(sink.drain(b1).is_ok());
    assert!(sink.drain(b2).is_ok());
    let text = sink.take_pending();
    let ts = &meta.reset_timestamp;
    let expected_header = format!(
        "[[[[\"SysTick\",[\"app\",\"tick\"]]],[[\"37\",[\"app\",\"serial_task\"],\"UART0\"]],[[\"0\",[\"app\",\"foo\"]]]],\"{}\",\"16000000\"]",
        ts
    );
    let expected = format!(
        "{}[\"1\",[[\"interrupt\",\"37\"]]][\"2\",[[\"task\",\"0\"]]]",
        expected_header
    );
    assert_eq!(text, expected);
    // Nothing pending is left once taken.
    assert!(sink.take_pending().is_empty());
}

#[test]
fn failed_reset_leaves_the_file_sink_untouched() {
    let mut sink = FileSink::generate_trace_file("blinky", "baadf00");
    let r = sink.init(small_maps(), 8_000_000, || Err("probe lost".to_string()));
    assert!(r.is_err());
    assert!(sink.pending.is_empty());
}

#[test]
fn sink_identity_strings() {
    let file = FileSink::generate_trace_file("blinky", "baadf00");
    assert!(file.describe().starts_with("file output: blinky-g"));
    let frontend = FrontendSink::new(metadata());
    assert_eq!(frontend.describe(), "frontend socket");
}

#[test]
fn event_chunks_encode_with_kind_tags() {
    let chunk = EventChunk {
        ticks: 7,
        events: vec![
            Event::Task { path: path(&["app", "foo"]) },
            Event::Unknown { desc: "noise".to_string() },
        ],
    };
    assert_eq!(
        rtic_scope::json::encode_event_chunk(&chunk),
        "[\"7\",[[\"task\",[\"app\",\"foo\"]],[\"unknown\",\"noise\"]]]"
    );
}

#[test]
fn more_queued_than_a_page_is_the_worst_warning() {
    // The kernel can queue beyond one page; remaining capacity is then
    // negative and the warning still fires.
    match classify_buffer(5000, 4096) {
        BufferStatus::AvailWarn(n, page) => {
            assert_eq!(n, -904);
            assert_eq!(page, 4096);
        }
        _ => panic!("expected a warning status"),
    }
}

#[test]
fn batches_close_on_a_timestamp_in_arrival_order() {
    let mut assembler = BatchAssembler::new();
    let p1 = TracePacket::ExternalTask { nr: 37 };
    let p2 = TracePacket::SoftwareTask { id: 0 };
    assert!(matches!(assembler.accept(DecoderOutput::Packet { packet: p1 }), Ok(None)));
    assert!(matches!(assembler.accept(DecoderOutput::Packet { packet: p2 }), Ok(None)));
    let batch = assembler.accept(DecoderOutput::Timestamp { ticks: 9 }).unwrap().unwrap();
    assert_eq!(batch.ticks, 9);
    assert_eq!(batch.packets.len(), 2);
    assert!(matches!(batch.packets[0], TracePacket::ExternalTask { nr: 37 }));
    assert!(matches!(batch.packets[1], TracePacket::SoftwareTask { id: 0 }));
    // The group is consumed; the next timestamp closes an empty batch.
    let empty = assembler.accept(DecoderOutput::Timestamp { ticks: 10 }).unwrap().unwrap();
    assert!(empty.packets.is_empty());
}

#[test]
fn a_rejected_stream_is_an_error_not_an_end() {
    let mut assembler = BatchAssembler::new();
    let p = TracePacket::SoftwareTask { id: 1 };
    assert!(matches!(assembler.accept(DecoderOutput::Packet { packet: p }), Ok(None)));
    match assembler.accept(DecoderOutput::Malformed { reason: "bad header".to_string() }) {
        Err(SourceError::DecodeError { reason }) => assert_eq!(reason, "bad header"),
        _ => panic!("expected a decode error"),
    }
    // The pending group survives the error.
    assert_eq!(assembler.pending.len(), 1);
}
