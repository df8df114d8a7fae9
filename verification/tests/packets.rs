use bytes::Bytes;
use mysql_stream::capabilities::{
    Capabilities, Status, DEPRECATE_EOF, PROTOCOL_41, SERVER_MORE_RESULTS_EXISTS,
};
use mysql_stream::error::{ErrPacket, ProtocolError};
use mysql_stream::packet::{get_uint_lenenc, EofPacket, OkPacket, Packet, ProtocolDecode};
use mysql_stream::prepare_ok::{CompressedHeader, PrepareOk};

fn none() -> Capabilities {
    Capabilities { bits: 0 }
}

fn prepare_ok(data: &[u8]) -> Result<PrepareOk, ProtocolError> {
    PrepareOk::decode_with(Bytes::copy_from_slice(data), none())
}

const COMPLETE: [u8; 12] = [0x00, 0x78, 0x56, 0x34, 0x12, 0x02, 0x01, 0x04, 0x03, 0xaa, 0x06, 0x05];

#[test]
fn complete_prepare_response() {
    assert_eq!(
        prepare_ok(&COMPLETE),
        Ok(PrepareOk { statement_id: 0x12345678, columns: 0x0102, params: 0x0304, warnings: 0x0506 })
    );
}

#[test]
fn bytes_behind_a_complete_prepare_response_are_ignored() {
    let mut longer = COMPLETE.to_vec();
    longer.extend_from_slice(&[0xff; 9]);
    assert_eq!(prepare_ok(&longer), prepare_ok(&COMPLETE));
}

#[test]
fn short_prepare_responses_end_after_the_statement_id() {
    for len in [5, 6, 8, 9, 10, 11] {
        assert_eq!(
            prepare_ok(&COMPLETE[..len]),
            Ok(PrepareOk { statement_id: 0x12345678, columns: 0, params: 0, warnings: 0 })
        );
    }
}

#[test]
fn too_short_prepare_responses() {
    for len in 0..5 {
        assert_eq!(
            prepare_ok(&COMPLETE[..len]),
            Err(ProtocolError::PrepareOkTooShort { got: len })
        );
    }
}

#[test]
fn prepare_response_with_another_status() {
    let mut data = COMPLETE;
    data[0] = 0xff;
    assert_eq!(prepare_ok(&data), Err(ProtocolError::UnexpectedStatus { status: 0xff }));
    assert_eq!(
        PrepareOk::parse_prepare_ok_payload(Bytes::copy_from_slice(&[1, 0, 0, 0, 0])),
        Err(ProtocolError::UnexpectedStatus { status: 1 })
    );
}

#[test]
fn seven_bytes_are_never_a_prepare_response() {
    assert_eq!(prepare_ok(&[0; 7]), Err(ProtocolError::PrepareOkTooShort { got: 0 }));
    assert_eq!(
        prepare_ok(&[0, 0, 0, 1, 5, 0, 0]),
        Err(ProtocolError::PrepareOkTooShort { got: 0 })
    );
    assert_eq!(
        prepare_ok(&[0, 1, 0, 0, 0, 0, 0]),
        Err(ProtocolError::IncompleteCompressedData { expected: 263, got: 7 })
    );
    assert_eq!(
        prepare_ok(&[5, 0, 0, 0, 0, 0, 0]),
        Err(ProtocolError::IncompleteCompressedData { expected: 12, got: 7 })
    );
}

#[test]
fn compressed_header_fields() {
    assert_eq!(
        CompressedHeader::decode(&[0x03, 0x02, 0x01, 0x09, 0x06, 0x05, 0x04, 0xff]),
        Ok(CompressedHeader {
            compressed_length: 0x010203,
            compressed_sequence_id: 9,
            uncompressed_length: 0x040506,
        })
    );
    assert_eq!(
        CompressedHeader::decode(&[0; 6]),
        Err(ProtocolError::CompressedHeaderTooShort { got: 6 })
    );
}

fn behind_header(length: u32, uncompressed: u32, data: &[u8]) -> Result<Vec<u8>, ProtocolError> {
    let header = CompressedHeader {
        compressed_length: length,
        compressed_sequence_id: 0,
        uncompressed_length: uncompressed,
    };
    let mut buf = vec![0xee; 7];
    buf.extend_from_slice(data);
    header.data(&buf).map(|b| b.to_vec())
}

#[test]
fn data_behind_a_compressed_header() {
    assert_eq!(behind_header(3, 0, &[1, 2, 3, 4]), Ok(vec![1, 2, 3]));
    assert_eq!(behind_header(200, 0, &[7; 200]), Ok(vec![7; 200]));
    assert_eq!(behind_header(99, 500, &[7; 99]), Ok(vec![7; 99]));
    assert_eq!(
        behind_header(100, 500, &[7; 100]),
        Err(ProtocolError::CompressionUnsupported { compressed: 100, uncompressed: 500 })
    );
    assert_eq!(
        behind_header(4, 0, &[1, 2, 3]),
        Err(ProtocolError::IncompleteCompressedData { expected: 11, got: 10 })
    );
}

fn lenenc(data: &[u8]) -> (Result<u64, ProtocolError>, Vec<u8>) {
    let mut buf = Bytes::copy_from_slice(data);
    let r = get_uint_lenenc(&mut buf);
    (r, buf.to_vec())
}

#[test]
fn length_encoded_integers() {
    assert_eq!(lenenc(&[0xfa, 1]), (Ok(0xfa), vec![1]));
    assert_eq!(lenenc(&[0xfc, 1, 2, 3]), (Ok(0x0201), vec![3]));
    assert_eq!(lenenc(&[0xfd, 1, 2, 3, 4]), (Ok(0x030201), vec![4]));
    assert_eq!(lenenc(&[0xfe, 1, 2, 3, 4, 5, 6, 7, 8]), (Ok(0x0807060504030201), vec![]));
    assert_eq!(
        lenenc(&[0xfd, 1]),
        (Err(ProtocolError::Truncated { needed: 3, remaining: 1 }), vec![1])
    );
    assert_eq!(lenenc(&[]), (Err(ProtocolError::Truncated { needed: 1, remaining: 0 }), vec![]));
}

fn packet(data: &[u8]) -> Packet {
    Packet(Bytes::copy_from_slice(data))
}

#[test]
fn ok_packets() {
    let expected = OkPacket {
        affected_rows: 3,
        last_insert_id: 0x0201,
        status: Status { bits: 0x000a },
        warnings: 0x0100,
    };
    assert_eq!(packet(&[0x00, 3, 0xfc, 1, 2, 0x0a, 0, 0, 1]).ok(), Ok(expected));
    assert_eq!(packet(&[0xfe, 3, 0xfc, 1, 2, 0x0a, 0, 0, 1, 9]).ok(), Ok(expected));
    assert!(expected.status.contains(SERVER_MORE_RESULTS_EXISTS));
    assert_eq!(packet(&[0xff, 3]).ok(), Err(ProtocolError::NotOkPacket { header: 0xff }));
    assert_eq!(
        packet(&[0x00, 3, 1, 0x0a]).ok(),
        Err(ProtocolError::Truncated { needed: 2, remaining: 1 })
    );
}

#[test]
fn eof_packets() {
    let expected = EofPacket { warnings: 1, status: Status { bits: 8 } };
    assert_eq!(packet(&[0xfe, 1, 0, 8, 0]).eof(none()), Ok(expected));
    assert_eq!(
        packet(&[0xfe, 0, 0, 8, 0, 1, 0]).eof(Capabilities { bits: DEPRECATE_EOF }),
        Ok(expected)
    );
    assert_eq!(
        packet(&[0x00, 0, 0, 8, 0]).eof(none()),
        Err(ProtocolError::NotEofPacket { header: 0 })
    );
    assert_eq!(
        packet(&[0xfe, 0, 0]).eof(none()),
        Err(ProtocolError::Truncated { needed: 2, remaining: 0 })
    );
}

fn err_packet(data: &[u8], bits: u64) -> Result<(u16, Option<String>, String), ProtocolError> {
    ErrPacket::decode_with(Bytes::copy_from_slice(data), Capabilities { bits })
        .map(|p| (p.error_code, p.sql_state, p.error_message))
}

#[test]
fn err_packets() {
    let data = b"\xff\x28\x04#42000You h\xc3\xa4ve";
    assert_eq!(
        err_packet(data, PROTOCOL_41),
        Ok((1064, Some("42000".to_string()), "You h\u{e4}ve".to_string()))
    );
    assert_eq!(err_packet(data, 0), Ok((1064, None, "#42000You h\u{e4}ve".to_string())));
    assert_eq!(err_packet(b"\xff\x01\x00", PROTOCOL_41), Ok((1, None, String::new())));
}

#[test]
fn malformed_err_packets() {
    assert_eq!(err_packet(b"\x00\x01\x00", 0), Err(ProtocolError::NotErrPacket { header: 0 }));
    assert_eq!(
        err_packet(b"\xff\x01", 0),
        Err(ProtocolError::Truncated { needed: 2, remaining: 1 })
    );
    assert_eq!(
        err_packet(b"\xff\x01\x00#420", PROTOCOL_41),
        Err(ProtocolError::Truncated { needed: 5, remaining: 3 })
    );
    assert_eq!(err_packet(b"\xff\x01\x00\xc3(", 0), Err(ProtocolError::InvalidUtf8));
    assert_eq!(
        err_packet(b"\xff\x01\x00#4200\xff", PROTOCOL_41),
        Err(ProtocolError::InvalidUtf8)
    );
}
