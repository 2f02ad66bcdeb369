//! Frame parsing and the per-shard request loop's decision function.
use ruko_server::{parse_frame, process_request, DataCommand, EntryStore, Frame, FrameError, FrameOp, RequestData};
use serde_json::Value;

fn frame_of(bytes: &[u8]) -> Result<Option<(Frame, usize)>, FrameError> {
    parse_frame(&bytes.to_vec())
}

#[test]
fn parse_read_frame() {
    match frame_of(b"GET*hello*") {
        Ok(Some((f, used))) => {
            assert_eq!(f.op, FrameOp::Read);
            assert_eq!(f.key, b"hello".to_vec());
            assert_eq!(f.value, Vec::<u8>::new());
            assert_eq!(used, 10);
        }
        _ => panic!("expected a complete read frame"),
    }
}

#[test]
fn parse_write_frame_leaves_trailing_bytes() {
    match frame_of(b"SET*hello*world*GET") {
        Ok(Some((f, used))) => {
            assert_eq!(f.op, FrameOp::Write);
            assert_eq!(f.key, b"hello".to_vec());
            assert_eq!(f.value, b"world".to_vec());
            assert_eq!(used, 16);
        }
        _ => panic!("expected a complete write frame"),
    }
}

#[test]
fn parse_incomplete_frames_ask_for_more() {
    assert!(matches!(frame_of(b""), Ok(None)));
    assert!(matches!(frame_of(b"GE"), Ok(None)));
    assert!(matches!(frame_of(b"GET"), Ok(None)));
    assert!(matches!(frame_of(b"GET*hel"), Ok(None)));
    assert!(matches!(frame_of(b"SET*hello*worl"), Ok(None)));
}

#[test]
fn parse_malformed_frames_fail() {
    assert!(matches!(frame_of(b"PUT*hello*"), Err(FrameError::Malformed)));
    assert!(matches!(frame_of(b"GETX"), Err(FrameError::Malformed)));
}

#[test]
fn process_request_set_then_get() {
    let mut store = EntryStore::new();
    let (r, stop) = process_request(
        &mut store,
        RequestData {
            id: String::from("id-1"),
            command: DataCommand::SetValue {
                key: vec![String::from("k")],
                value: Value::String(String::from("payload")),
            },
        },
    );
    assert!(r.is_none());
    assert!(!stop);
    let (r, stop) = process_request(
        &mut store,
        RequestData {
            id: String::from("id-1"),
            command: DataCommand::Get {
                key: vec![String::from("k")],
            },
        },
    );
    assert_eq!(r, Some(Value::String(String::from("payload"))));
    assert!(!stop);
}

#[test]
fn process_request_shutdown_stops_the_loop() {
    let mut store = EntryStore::new();
    let (r, stop) = process_request(
        &mut store,
        RequestData {
            id: String::from(""),
            command: DataCommand::ShutdownShardedCollection,
        },
    );
    assert!(r.is_none());
    assert!(stop);
}
