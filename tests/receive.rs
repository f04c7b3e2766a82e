use std::collections::VecDeque;
use tls_framing::codec::{decode_u32, encode_u32, DecodeOutcome};
use tls_framing::connection::{ConnError, ConnState, MessageConnection, Next, ReadEvent, SendOutcome};

fn plain(bytes: &[u8]) -> ReadEvent {
    ReadEvent::Fed { negotiating: false, plaintext: bytes.to_vec() }
}

fn negotiating() -> ReadEvent {
    ReadEvent::Fed { negotiating: true, plaintext: Vec::new() }
}

/// Runs one receive of an integer against a scripted transport; gives the
/// result and how many reads it took. Running out of reads is a panic.
fn receive(conn: &mut MessageConnection, reads: &mut VecDeque<ReadEvent>) -> (Result<u32, ConnError>, usize) {
    let mut taken = 0;
    loop {
        let (outcome, value) = decode_u32(conn.buffered());
        match conn.on_decode(outcome) {
            Next::Deliver => return (Ok(value.unwrap()), taken),
            Next::Fail(e) => return (Err(e), taken),
            Next::Decode => unreachable!(),
            Next::Read => {}
        }
        loop {
            let ev = reads.pop_front().expect("receive read past the scripted transport");
            taken += 1;
            match conn.on_read(ev) {
                Next::Decode => break,
                Next::Read => continue,
                Next::Fail(e) => return (Err(e), taken),
                Next::Deliver => unreachable!(),
            }
        }
    }
}

#[test]
fn three_integers_in_one_write() {
    let mut chunk = Vec::new();
    for v in [1u32, 2, 3] {
        chunk.extend(encode_u32(v));
    }
    assert_eq!(chunk, vec![0, 0, 0, 1, 0, 0, 0, 2, 0, 0, 0, 3]);
    let mut conn = MessageConnection::new(false);
    let mut reads = VecDeque::from(vec![plain(&chunk)]);
    assert_eq!(receive(&mut conn, &mut reads), (Ok(1), 1));
    assert_eq!(receive(&mut conn, &mut reads), (Ok(2), 0));
    assert_eq!(receive(&mut conn, &mut reads), (Ok(3), 0));
    assert!(conn.buffered().is_empty());
}

#[test]
fn pipelined_messages_keep_order_and_leftover() {
    let values = [7u32, 0, u32::MAX, 65536, 42];
    let mut chunk = Vec::new();
    for v in values {
        chunk.extend(encode_u32(v));
    }
    chunk.extend([9, 9]);
    let mut conn = MessageConnection::new(false);
    let mut reads = VecDeque::from(vec![plain(&chunk)]);
    for (i, v) in values.iter().enumerate() {
        let expected_reads = if i == 0 { 1 } else { 0 };
        assert_eq!(receive(&mut conn, &mut reads), (Ok(*v), expected_reads));
    }
    assert_eq!(conn.buffered(), &[9, 9]);
}

#[test]
fn fragmented_message_takes_one_read_per_chunk() {
    let mut conn = MessageConnection::new(false);
    let mut reads = VecDeque::from(vec![plain(&[0x01]), plain(&[0x02, 0x03]), plain(&[0x04])]);
    assert_eq!(receive(&mut conn, &mut reads), (Ok(0x01020304), 3));
    assert!(reads.is_empty());
    assert!(conn.buffered().is_empty());
}

#[test]
fn fragment_with_next_message_prefix() {
    let mut conn = MessageConnection::new(false);
    let mut reads = VecDeque::from(vec![plain(&[0, 0]), plain(&[1, 0x10, 0, 0]), plain(&[0, 5])]);
    assert_eq!(receive(&mut conn, &mut reads), (Ok(0x110), 2));
    assert_eq!(conn.buffered(), &[0, 0]);
    assert_eq!(receive(&mut conn, &mut reads), (Ok(5), 1));
}

#[test]
fn handshake_reads_are_not_failures() {
    let mut conn = MessageConnection::new(true);
    assert_eq!(conn.state(), ConnState::Handshaking);
    let mut reads = VecDeque::from(vec![negotiating(), negotiating(), negotiating(), plain(&[0, 0, 0, 9])]);
    assert_eq!(receive(&mut conn, &mut reads), (Ok(9), 4));
    assert_eq!(conn.state(), ConnState::Established);
}

#[test]
fn end_of_stream_while_established_closes() {
    let mut conn = MessageConnection::new(false);
    let mut reads = VecDeque::from(vec![plain(&[1, 2]), ReadEvent::EndOfStream]);
    assert_eq!(receive(&mut conn, &mut reads), (Err(ConnError::ConnectionClosed), 2));
    assert_eq!(conn.state(), ConnState::Closed);
    assert_eq!(conn.status(), Err(ConnError::ConnectionClosed));
    assert_eq!(conn.buffered(), &[1, 2]);
}

#[test]
fn end_of_stream_during_handshake_keeps_reading() {
    let mut conn = MessageConnection::new(true);
    assert_eq!(conn.on_read(ReadEvent::EndOfStream), Next::Read);
    assert_eq!(conn.state(), ConnState::Handshaking);
}

#[test]
fn transport_and_channel_failures() {
    let mut conn = MessageConnection::new(false);
    assert_eq!(conn.on_decode(DecodeOutcome::Incomplete), Next::Read);
    assert_eq!(conn.on_read(ReadEvent::Failed), Next::Fail(ConnError::Transport));
    assert_eq!(conn.state(), ConnState::Faulted(ConnError::Transport));
    assert_eq!(conn.on_read(plain(&[1])), Next::Fail(ConnError::Transport));

    let mut conn = MessageConnection::new(true);
    assert_eq!(conn.on_read(ReadEvent::Rejected), Next::Fail(ConnError::Channel));
    assert_eq!(conn.on_decode(DecodeOutcome::Complete(0)), Next::Fail(ConnError::Channel));
}

#[test]
fn malformed_buffer_is_sticky() {
    let mut conn = MessageConnection::new(false);
    assert_eq!(conn.on_read(plain(&[5, 6, 7])), Next::Decode);
    assert_eq!(conn.on_decode(DecodeOutcome::Malformed), Next::Fail(ConnError::Deserialization));
    assert_eq!(conn.buffered(), &[5, 6, 7]);
    assert_eq!(conn.on_decode(DecodeOutcome::Complete(3)), Next::Fail(ConnError::Deserialization));
    assert_eq!(conn.buffered(), &[5, 6, 7]);
    assert_eq!(conn.state(), ConnState::Faulted(ConnError::Deserialization));
}

#[test]
fn overlong_consumption_is_malformed() {
    let mut conn = MessageConnection::new(false);
    assert_eq!(conn.on_read(plain(&[1, 2])), Next::Decode);
    assert_eq!(conn.on_decode(DecodeOutcome::Complete(3)), Next::Fail(ConnError::Deserialization));
    assert_eq!(conn.buffered(), &[1, 2]);
}

#[test]
fn zero_length_message_consumes_nothing() {
    let mut conn = MessageConnection::new(false);
    assert_eq!(conn.on_decode(DecodeOutcome::Complete(0)), Next::Deliver);
    assert!(conn.buffered().is_empty());
}

#[test]
fn negotiating_plaintext_is_kept() {
    let mut conn = MessageConnection::new(true);
    assert_eq!(conn.on_read(ReadEvent::Fed { negotiating: true, plaintext: vec![0, 0] }), Next::Read);
    assert_eq!(conn.buffered(), &[0, 0]);
    assert_eq!(conn.on_read(plain(&[0, 3])), Next::Decode);
    assert_eq!(conn.buffered(), &[0, 0, 0, 3]);
}

#[test]
fn send_outcomes() {
    let mut conn = MessageConnection::new(false);
    assert_eq!(conn.on_send(SendOutcome::Sent), Ok(()));
    assert_eq!(conn.on_send(SendOutcome::EncodeFailed), Err(ConnError::Serialization));
    assert_eq!(conn.status(), Ok(()));
    assert_eq!(conn.on_send(SendOutcome::WrapFailed), Err(ConnError::Channel));
    assert_eq!(conn.on_send(SendOutcome::Sent), Err(ConnError::Channel));

    let mut conn = MessageConnection::new(false);
    assert_eq!(conn.on_read(plain(&[4])), Next::Decode);
    assert_eq!(conn.on_send(SendOutcome::WriteFailed), Err(ConnError::Transport));
    assert_eq!(conn.buffered(), &[4]);
}
