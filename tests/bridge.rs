use racedial::bridge::{chunk_buffer, session_result, Bridge, BridgeEnd, BridgeStep, Direction, CHUNK_SIZE};
use racedial::race::RunError;

#[test]
fn short_read_is_forwarded_at_once() {
    let mut b = Bridge::new();
    let mut buf = chunk_buffer();
    buf[..3].copy_from_slice(b"abc");
    match b.on_read(Direction::Outbound, &buf, Ok(3)) {
        BridgeStep::Write(v) => assert_eq!(v, b"abc".to_vec()),
        _ => panic!("expected a write"),
    }
    assert!(matches!(b.on_written(Direction::Outbound, true), BridgeStep::Read));
    assert!(b.is_open());
}

#[test]
fn large_input_crosses_in_chunks_in_order() {
    let data: Vec<u8> = (0..(2 * CHUNK_SIZE + 100)).map(|i| (i % 251) as u8).collect();
    let mut b = Bridge::new();
    let mut out: Vec<u8> = Vec::new();
    let mut n_chunks = 0;
    for piece in data.chunks(CHUNK_SIZE) {
        let mut buf = chunk_buffer();
        buf[..piece.len()].copy_from_slice(piece);
        match b.on_read(Direction::Inbound, &buf, Ok(piece.len())) {
            BridgeStep::Write(v) => out.extend_from_slice(&v),
            _ => panic!("expected a write"),
        }
        assert!(matches!(b.on_written(Direction::Inbound, true), BridgeStep::Read));
        n_chunks += 1;
    }
    assert_eq!(n_chunks, 3);
    assert_eq!(out, data);
}

#[test]
fn local_end_of_stream_ends_the_session() {
    let mut b = Bridge::new();
    let buf = chunk_buffer();
    assert!(matches!(b.on_read(Direction::Outbound, &buf, Ok(0)), BridgeStep::Stop(BridgeEnd::LocalClosed)));
    assert!(!b.is_open());
}

#[test]
fn remote_close_ends_the_session_cleanly() {
    let mut b = Bridge::new();
    let buf = chunk_buffer();
    match b.on_read(Direction::Inbound, &buf, Ok(0)) {
        BridgeStep::Stop(e) => {
            assert_eq!(e, BridgeEnd::RemoteClosed);
            assert_eq!(session_result(e), Ok(()));
        }
        _ => panic!("expected the end"),
    }
}

#[test]
fn read_error_is_a_bridge_io_error() {
    let mut b = Bridge::new();
    let buf = chunk_buffer();
    match b.on_read(Direction::Inbound, &buf, Err(())) {
        BridgeStep::Stop(e) => {
            assert_eq!(e, BridgeEnd::IoError(Direction::Inbound));
            assert_eq!(session_result(e), Err(RunError::BridgeIOError));
        }
        _ => panic!("expected the end"),
    }
    assert!(!b.is_open());
}

#[test]
fn write_error_ends_both_directions() {
    let mut b = Bridge::new();
    let buf = chunk_buffer();
    assert!(matches!(b.on_read(Direction::Outbound, &buf, Ok(5)), BridgeStep::Write(_)));
    assert!(matches!(
        b.on_written(Direction::Outbound, false),
        BridgeStep::Stop(BridgeEnd::IoError(Direction::Outbound))
    ));
    assert!(!b.is_open());
}

#[test]
fn chunk_buffer_has_chunk_size() {
    assert_eq!(chunk_buffer().len(), 8192);
}
