use rtic_scope::json::{encode_metadata, encode_trace_data, split_stream};
use rtic_scope::recovery::{Metadata, TaskPath, TaskResolveMaps, TraceData, TracePacket};
use rtic_scope::text::u64_to_string;

fn empty_maps() -> TaskResolveMaps {
    TaskResolveMaps { exceptions: vec![], interrupts: vec![], sw_assocs: vec![] }
}

#[test]
fn numbers_render_in_decimal() {
    assert_eq!(u64_to_string(0), "0");
    assert_eq!(u64_to_string(10), "10");
    assert_eq!(u64_to_string(4096), "4096");
    assert_eq!(u64_to_string(u64::MAX), "18446744073709551615");
}

#[test]
fn header_of_an_empty_session_is_exact() {
    let m = Metadata::new(empty_maps(), "2021-06-16T17:13:16".to_string(), 16_000_000);
    assert_eq!(
        encode_metadata(&m),
        "[[[],[],[]],\"2021-06-16T17:13:16\",\"16000000\"]"
    );
}

#[test]
fn batches_encode_each_packet_kind() {
    let d = TraceData {
        ticks: 99,
        packets: vec![
            TracePacket::InternalTask { name: "SysTick".to_string() },
            TracePacket::ExternalTask { nr: 37 },
            TracePacket::SoftwareTask { id: 2 },
            TracePacket::Unknown { desc: "junk".to_string() },
        ],
    };
    assert_eq!(
        encode_trace_data(&d),
        "[\"99\",[[\"exception\",\"SysTick\"],[\"interrupt\",\"37\"],[\"task\",\"2\"],[\"unknown\",\"junk\"]]]"
    );
}

#[test]
fn an_empty_batch_still_frames_its_timestamp() {
    let d = TraceData { ticks: 0, packets: vec![] };
    assert_eq!(encode_trace_data(&d), "[\"0\",[]]");
}

#[test]
fn header_with_a_task_path_quotes_each_segment() {
    let maps = TaskResolveMaps {
        exceptions: vec![],
        interrupts: vec![],
        sw_assocs: vec![(0, TaskPath { segments: vec!["app".to_string(), "foo".to_string()] })],
    };
    let m = Metadata::new(maps, "t".to_string(), 1);
    assert_eq!(encode_metadata(&m), "[[[],[],[[\"0\",[\"app\",\"foo\"]]]],\"t\",\"1\"]");
}

#[test]
fn file_stream_splits_back_into_header_and_batches() {
    // A header and two batches, written with no separators, come back
    // as exactly those three texts when the stream is re-split.
    let m = Metadata::new(empty_maps(), "2021-06-16T17:13:16".to_string(), 8_000_000);
    let header = encode_metadata(&m);
    let b1 = encode_trace_data(&TraceData {
        ticks: 1,
        packets: vec![TracePacket::ExternalTask { nr: 37 }],
    });
    let b2 = encode_trace_data(&TraceData {
        ticks: 2,
        packets: vec![TracePacket::SoftwareTask { id: 0 }],
    });
    let stream = format!("{}{}{}", header, b1, b2);
    let pieces = split_stream(&stream).unwrap();
    assert_eq!(pieces, vec![header, b1, b2]);
}

#[test]
fn a_broken_stream_does_not_split() {
    assert!(split_stream("junk").is_none());
    // A truncated value has no closing delimiter.
    assert!(split_stream("[\"1\",[[\"task\"").is_none());
}
