use bytes::Bytes;
use mysql_stream::capabilities::{
    Capabilities, CONNECT_WITH_DB, DEPRECATE_EOF, PROTOCOL_41, SSL,
};
use mysql_stream::error::{Error, ProtocolError};
use mysql_stream::frame::{write_frames, MAX_PAYLOAD};
use mysql_stream::packet::{EofPacket, Packet};
use mysql_stream::prepare_ok::PrepareOk;
use mysql_stream::receive::Receiving;
use mysql_stream::socket::{BufferedSocket, Socket, SocketError};
use mysql_stream::stream::{CharSet, Collation, MySqlConnectOptions, MySqlStream};
use mysql_stream::wait::{Draining, WaitAction, Waiting};

struct Pipe {
    incoming: Vec<u8>,
    outgoing: Vec<u8>,
}

impl Socket for Pipe {
    fn try_read(&mut self, max: usize) -> Result<Vec<u8>, SocketError> {
        if self.incoming.is_empty() {
            return Err(SocketError::WouldBlock);
        }
        let n = max.min(self.incoming.len());
        Ok(self.incoming.drain(..n).collect())
    }

    fn try_write(&mut self, data: &[u8]) -> Result<usize, SocketError> {
        self.outgoing.extend_from_slice(data);
        Ok(data.len())
    }
}

fn stream_with(database: Option<&str>) -> MySqlStream<Pipe> {
    MySqlStream::with_socket(
        CharSet { name: "utf8mb4".to_string() },
        Collation { id: 224 },
        &MySqlConnectOptions { database: database.map(|s| s.to_string()) },
        Pipe { incoming: vec![1, 2, 3], outgoing: vec![] },
    )
}

fn stream(bits: u64, waiting: &[Waiting]) -> MySqlStream<Pipe> {
    let mut s = stream_with(None);
    s.capabilities = Capabilities { bits };
    s.waiting = waiting.iter().copied().collect();
    s
}

fn packet(data: &[u8]) -> Packet {
    Packet(Bytes::copy_from_slice(data))
}

fn waiting(s: &MySqlStream<Pipe>) -> Vec<Waiting> {
    s.waiting.iter().copied().collect()
}

#[test]
fn a_fresh_stream() {
    let s = stream_with(None);
    assert_eq!(s.capabilities.bits, 0x12f_ab02);
    assert!(s.capabilities.contains(PROTOCOL_41 | DEPRECATE_EOF | SSL));
    assert!(!s.capabilities.contains(CONNECT_WITH_DB));
    assert_eq!(s.server_version, (0, 0, 0));
    assert_eq!(s.sequence_id, 0);
    assert!(s.waiting.is_empty());
    assert!(s.write_buffer().is_empty());
    assert_eq!(s.charset.name, "utf8mb4");
    assert_eq!(s.collation, Collation { id: 224 });
    assert!(!s.is_tls);
}

#[test]
fn a_database_is_announced() {
    assert_eq!(stream_with(Some("test")).capabilities.bits, 0x12f_ab0a);
}

#[test]
fn boxing_keeps_everything() {
    let mut s = stream_with(Some("test"));
    s.server_version = (8, 0, 36);
    s.sequence_id = 7;
    s.waiting.push_back(Waiting::Row);
    s.is_tls = true;
    s.write_packet(Ok(vec![0x0e])).unwrap();
    let mut b: MySqlStream = s.boxed_socket();
    assert_eq!(b.server_version, (8, 0, 36));
    assert_eq!(b.capabilities.bits, 0x12f_ab0a);
    assert_eq!(b.sequence_id, 8);
    assert_eq!(b.waiting.len(), 1);
    assert_eq!(b.collation.id, 224);
    assert!(b.is_tls);
    assert_eq!(b.write_buffer(), &[1, 0, 0, 7, 0x0e]);
    assert_eq!(b.socket.socket.try_read(2).unwrap(), vec![1, 2]);
    assert_eq!(b.socket.socket.try_read(2).unwrap(), vec![3]);
    assert!(matches!(b.socket.socket.try_read(2), Err(SocketError::WouldBlock)));
    assert_eq!(b.socket.socket.try_write(&[9, 9]).unwrap(), 2);
}

struct Recorder {
    calls: std::rc::Rc<std::cell::RefCell<Vec<String>>>,
}

impl Socket for Recorder {
    fn try_read(&mut self, max: usize) -> Result<Vec<u8>, SocketError> {
        self.calls.borrow_mut().push(format!("read {}", max));
        Ok(vec![0xaa; max / 2])
    }

    fn try_write(&mut self, data: &[u8]) -> Result<usize, SocketError> {
        self.calls.borrow_mut().push(format!("write {:?}", data));
        Err(SocketError::Failed("broken pipe".to_string()))
    }
}

fn use_socket<S: Socket>(socket: &mut S) -> (Vec<u8>, String) {
    let read = socket.try_read(6).unwrap();
    match socket.try_write(&[1, 2]) {
        Err(SocketError::Failed(e)) => (read, e),
        _ => panic!("the write did not fail"),
    }
}

#[test]
fn a_boxed_socket_passes_each_call_on_once() {
    let calls = std::rc::Rc::new(std::cell::RefCell::new(Vec::new()));
    let mut boxed: Box<dyn Socket> = Box::new(Recorder { calls: calls.clone() });
    assert_eq!(use_socket(&mut boxed), (vec![0xaa; 3], "broken pipe".to_string()));
    assert_eq!(*calls.borrow(), vec!["read 6".to_string(), "write [1, 2]".to_string()]);
}

#[test]
fn the_socket_shows_through_the_stream() {
    let mut s = stream_with(None);
    s.write_packet(Ok(vec![1, 2, 3])).unwrap();
    s.consume(5);
    assert_eq!(s.write_buffer(), &[2, 3]);
    s.consume(2);
    assert!(s.write_buffer().is_empty());
}

#[test]
fn commands_start_at_sequence_id_zero() {
    let mut s = stream_with(None);
    s.sequence_id = 42;
    s.send_packet(Ok(vec![0x03, b'X'])).unwrap();
    assert_eq!(s.sequence_id, 1);
    s.write_packet(Ok(vec![])).unwrap();
    assert_eq!(s.sequence_id, 2);
    assert_eq!(s.write_buffer(), &[2, 0, 0, 0, 0x03, b'X', 0, 0, 0, 1]);
}

#[test]
fn failed_encodings_write_nothing() {
    let mut s = stream_with(None);
    s.sequence_id = 42;
    let r = s.write_packet(Err(Error::Protocol(ProtocolError::InvalidUtf8)));
    assert!(matches!(r, Err(Error::Protocol(ProtocolError::InvalidUtf8))));
    assert_eq!(s.sequence_id, 42);
    let r = s.send_packet(Err(Error::Protocol(ProtocolError::InvalidUtf8)));
    assert!(matches!(r, Err(Error::Protocol(ProtocolError::InvalidUtf8))));
    assert_eq!(s.sequence_id, 0);
    assert!(s.write_buffer().is_empty());
}

#[test]
fn long_payloads_are_split() {
    let payload = vec![0x5a; MAX_PAYLOAD + 2];
    let mut wire = vec![0xee];
    assert_eq!(write_frames(&mut wire, &payload, 255), 1);
    assert_eq!(wire.len(), 1 + 4 + MAX_PAYLOAD + 4 + 2);
    assert_eq!(&wire[..6], &[0xee, 0xff, 0xff, 0xff, 255, 0x5a]);
    assert_eq!(&wire[5 + MAX_PAYLOAD..], &[2, 0, 0, 0, 0x5a, 0x5a]);
}

#[test]
fn a_payload_of_the_greatest_length_is_followed_by_an_empty_packet() {
    let mut wire = Vec::new();
    assert_eq!(write_frames(&mut wire, &vec![1; MAX_PAYLOAD], 3), 5);
    assert_eq!(&wire[4 + MAX_PAYLOAD..], &[0, 0, 0, 4]);
}

#[test]
fn packets_are_read_back_as_they_were_written() {
    let mut sender = BufferedSocket::new(());
    let mut id = 255u8;
    sender.write_with(&vec![0xab; 0x010203], &mut id);
    assert_eq!(id, 0);
    let wire = sender.write_buffer().to_vec();
    let mut receiver = stream_with(None);
    let size = receiver.recv_packet_part(Bytes::copy_from_slice(&wire[..4]));
    assert_eq!(size, 0x010203);
    assert_eq!(receiver.sequence_id, id);
    let packet = receiver.recv_packet(Bytes::copy_from_slice(&wire[4..4 + size])).unwrap();
    assert_eq!(&packet.0[..], &vec![0xab; 0x010203][..]);
}

#[test]
fn empty_packets_are_refused() {
    let mut s = stream(PROTOCOL_41, &[Waiting::Row]);
    let r = s.recv_packet(Bytes::new());
    assert!(matches!(r, Err(Error::Protocol(ProtocolError::PacketEmpty))));
    assert_eq!(waiting(&s), vec![Waiting::Row]);
}

#[test]
fn error_packets_answer_the_oldest_request() {
    let mut s = stream(PROTOCOL_41, &[Waiting::Row, Waiting::Result]);
    match s.recv_packet(Bytes::copy_from_slice(b"\xff\x15\x04#28000denied")) {
        Err(Error::Database(p)) => {
            assert_eq!(p.error_code, 1045);
            assert_eq!(p.sql_state.as_deref(), Some("28000"));
            assert_eq!(p.error_message, "denied");
        }
        _ => panic!("no error packet"),
    }
    assert_eq!(waiting(&s), vec![Waiting::Result]);
    let r = s.recv_packet(Bytes::copy_from_slice(&[0xff]));
    assert!(matches!(
        r,
        Err(Error::Protocol(ProtocolError::Truncated { needed: 2, remaining: 0 }))
    ));
    assert!(s.waiting.is_empty());
    assert!(s.recv_packet(Bytes::copy_from_slice(&[0xff, 1, 0])).is_err());
}

#[test]
fn what_getting_ready_takes() {
    let mut s = stream(DEPRECATE_EOF, &[]);
    assert_eq!(s.wait_until_ready(Draining::Response), WaitAction::Ready);
    s.waiting.push_back(Waiting::Result);
    assert_eq!(s.wait_until_ready(Draining::Response), WaitAction::Receive);
    s.write_packet(Ok(vec![1])).unwrap();
    assert_eq!(s.wait_until_ready(Draining::Response), WaitAction::Flush);
    s.consume(5);
    s.waiting.clear();
    assert_eq!(s.wait_until_ready(Draining::ColumnsEnd), WaitAction::Receive);
    assert_eq!(s.wait_until_ready(Draining::Columns { left: 1 }), WaitAction::Receive);
}

fn drain(s: &mut MySqlStream<Pipe>, packets: &[&[u8]]) -> (Draining, usize) {
    let mut state = Draining::Response;
    let mut used = 0;
    while used < packets.len() && s.wait_until_ready(state) == WaitAction::Receive {
        state = s.wait_received(state, packet(packets[used])).unwrap();
        used += 1;
    }
    (state, used)
}

#[test]
fn a_result_set_is_skipped() {
    let mut s = stream(DEPRECATE_EOF, &[Waiting::Result]);
    let packets: [&[u8]; 7] = [
        &[2],
        b"column one",
        b"column two",
        &[1, b'a', 1, b'b'],
        &[0xfe, 0, 0, 0, 0, 0, 0, 0, 0, 0],
        &[0xfe, 0, 0, 2, 0, 0, 0],
        b"left alone",
    ];
    assert_eq!(drain(&mut s, &packets), (Draining::Response, 6));
    assert!(s.waiting.is_empty());
    assert_eq!(s.wait_until_ready(Draining::Response), WaitAction::Ready);
}

#[test]
fn a_result_set_with_eof_packets_is_skipped() {
    let mut s = stream(0, &[Waiting::Result, Waiting::Row]);
    let packets: [&[u8]; 6] = [
        &[1],
        b"column",
        &[0xfe, 0, 0, 0, 0],
        &[1, b'a'],
        &[0xfe, 0, 0, 0, 0],
        &[0xfe, 0, 0, 0, 0],
    ];
    assert_eq!(drain(&mut s, &packets[..5]), (Draining::Response, 5));
    assert_eq!(waiting(&s), vec![Waiting::Row]);
    assert_eq!(drain(&mut s, &packets[5..]), (Draining::Response, 1));
    assert!(s.waiting.is_empty());
}

#[test]
fn more_results_keep_the_response_waiting() {
    let mut s = stream(DEPRECATE_EOF, &[Waiting::Row]);
    assert_eq!(drain(&mut s, &[&[0xfe, 0, 0, 8, 0, 0, 0]]), (Draining::Response, 1));
    assert_eq!(waiting(&s), vec![Waiting::Result]);
    assert_eq!(drain(&mut s, &[&[0x00, 0, 0, 8, 0, 0, 0]]), (Draining::Response, 1));
    assert_eq!(waiting(&s), vec![Waiting::Result]);
    assert_eq!(drain(&mut s, &[&[0x00, 0, 0, 0, 0, 0, 0]]), (Draining::Response, 1));
    assert!(s.waiting.is_empty());
}

#[test]
fn unreadable_packets_while_getting_ready() {
    let mut s = stream(0, &[Waiting::Row, Waiting::Result]);
    let r = s.wait_received(Draining::Response, packet(&[0xfe, 0]));
    assert!(matches!(
        r,
        Err(Error::Protocol(ProtocolError::Truncated { needed: 2, remaining: 1 }))
    ));
    assert_eq!(waiting(&s), vec![Waiting::Row, Waiting::Result]);
    let mut s = stream(0, &[Waiting::Result]);
    assert!(s.wait_received(Draining::Response, packet(&[0x00])).is_err());
    assert_eq!(waiting(&s), vec![Waiting::Result]);
    assert!(s.wait_received(Draining::Response, packet(&[0xfc, 1])).is_err());
    assert_eq!(waiting(&s), vec![Waiting::Row]);
    let r = s.wait_received(Draining::ColumnsEnd, packet(&[0x00, 0, 0, 0, 0]));
    assert!(matches!(r, Err(Error::Protocol(ProtocolError::NotEofPacket { header: 0 }))));
}

#[test]
fn metadata_behind_the_column_count() {
    let eof = stream(0, &[]);
    assert!(eof.maybe_recv_eof());
    assert_eq!(eof.skip_result_metadata(packet(&[0])).unwrap(), Draining::ColumnsEnd);
    assert_eq!(
        eof.skip_result_metadata(packet(&[0xfc, 0, 1])).unwrap(),
        Draining::Columns { left: 256 }
    );
    let no_eof = stream(DEPRECATE_EOF, &[]);
    assert!(!no_eof.maybe_recv_eof());
    assert_eq!(no_eof.skip_result_metadata(packet(&[0])).unwrap(), Draining::Response);
}

const PREPARED: [u8; 12] = [0, 9, 0, 0, 0, 1, 0, 2, 0, 0, 0, 0];

#[test]
fn placeholders_ahead_of_a_prepare_response() {
    let s = stream(0, &[]);
    let mut state = Receiving { skipped: 0 };
    let placeholder = [0, 1, 2, 3, 4, 5, 6];
    for _ in 0..10 {
        let r: Result<Option<PrepareOk>, Error> = s.recv(&mut state, packet(&placeholder));
        assert!(matches!(r, Ok(None)));
    }
    assert_eq!(state.skipped, 10);
    let mut again = state;
    let r: Result<Option<PrepareOk>, Error> = s.recv(&mut again, packet(&PREPARED));
    assert_eq!(
        r.unwrap(),
        Some(PrepareOk { statement_id: 9, columns: 1, params: 2, warnings: 0 })
    );
    assert_eq!(again.skipped, 10);
    let r: Result<Option<PrepareOk>, Error> = s.recv(&mut state, packet(&placeholder));
    assert!(matches!(
        r,
        Err(Error::Protocol(ProtocolError::TooManyInvalidPackets { skipped: 10 }))
    ));
    assert_eq!(state.skipped, 10);
}

#[test]
fn placeholders_and_unreadable_packets_share_one_limit() {
    let s = stream(0, &[]);
    let mut state = Receiving { skipped: 0 };
    for i in 0..10 {
        let data: &[u8] = if i % 2 == 0 { &[0; 7] } else { &[1] };
        let r: Result<Option<PrepareOk>, Error> = s.recv_late(&mut state, packet(data));
        assert!(matches!(r, Ok(None)));
    }
    let r: Result<Option<PrepareOk>, Error> = s.recv_late(&mut state, packet(&[0; 7]));
    assert!(matches!(
        r,
        Err(Error::Protocol(ProtocolError::TooManyInvalidPackets { skipped: 10 }))
    ));
}

#[test]
fn unreadable_packets_ahead_of_a_prepare_response() {
    let s = stream(0, &[]);
    let mut state = Receiving { skipped: 0 };
    for _ in 0..10 {
        let r: Result<Option<PrepareOk>, Error> = s.recv_late(&mut state, packet(&[1]));
        assert!(matches!(r, Ok(None)));
    }
    let mut again = state;
    let r: Result<Option<PrepareOk>, Error> = s.recv(&mut state, packet(&[1, 0, 0, 0, 0, 0, 0]));
    assert!(matches!(
        r,
        Err(Error::Protocol(ProtocolError::TooManyInvalidPackets { skipped: 10 }))
    ));
    assert_eq!(state.skipped, 10);
    let r: Result<Option<PrepareOk>, Error> = s.recv(&mut again, packet(&PREPARED));
    assert_eq!(r.unwrap().unwrap().statement_id, 9);
}

#[test]
fn other_responses_are_read_at_once() {
    let s = stream(0, &[]);
    let mut state = Receiving { skipped: 0 };
    let r: Result<Option<EofPacket>, Error> = s.recv(&mut state, packet(&[0xfe, 3, 0, 2, 0]));
    assert_eq!(r.unwrap().unwrap().warnings, 3);
    let r: Result<Option<EofPacket>, Error> = s.recv(&mut state, packet(&[0; 7]));
    assert!(matches!(r, Err(Error::Protocol(ProtocolError::NotEofPacket { header: 0 }))));
    assert_eq!(state.skipped, 0);
}
