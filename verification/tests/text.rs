use mysql_stream::error::ProtocolError;
use mysql_stream::text::{escape_string, hex_dump, push_decimal, push_hex};

#[test]
fn hex_dump_separates_bytes_with_spaces() {
    assert_eq!(hex_dump(&[]), "");
    assert_eq!(hex_dump(&[0x0a]), "0a");
    assert_eq!(hex_dump(&[0x00, 0xff, 0x9a, 0xb0]), "00 ff 9a b0");
}

#[test]
fn hex_dump_has_three_characters_per_byte_less_one() {
    assert_eq!(hex_dump(&[7; 40]).len(), 119);
}

#[test]
fn hex_dump_differs_for_different_buffers() {
    assert_ne!(hex_dump(&[0x01, 0x23]), hex_dump(&[0x12, 0x03]));
    assert_ne!(hex_dump(&[0x01]), hex_dump(&[0x01, 0x01]));
}

#[test]
fn escape_string_keeps_printable_text() {
    assert_eq!(escape_string(b"SELECT 1 ~!\\"), "SELECT 1 ~!\\");
    assert_eq!(escape_string(b""), "");
}

#[test]
fn escape_string_escapes_the_rest() {
    assert_eq!(escape_string(&[0x00, 0x09, 0x0a, 0x0d]), "\\0\\t\\n\\r");
    assert_eq!(escape_string(&[0x1f, 0x7f, 0x80, 0xff]), "\\x1f\\x7f\\x80\\xff");
    assert_eq!(escape_string(&[b'a', 0x01, b'b']), "a\\x01b");
}

#[test]
fn escape_string_is_printable_for_every_byte() {
    let all: Vec<u8> = (0..=255).collect();
    assert!(escape_string(&all).bytes().all(|b| b == b' ' || b.is_ascii_graphic()));
}

#[test]
fn numbers_are_appended() {
    let mut out = String::from("n=");
    push_decimal(&mut out, 0);
    out.push(' ');
    push_decimal(&mut out, 18446744073709551615);
    out.push(' ');
    push_hex(&mut out, 0xc3);
    assert_eq!(out, "n=0 18446744073709551615 c3");
}

#[test]
fn messages_say_what_is_wrong() {
    let cases: Vec<(ProtocolError, &str)> = vec![
        (
            ProtocolError::CompressedHeaderTooShort { got: 3 },
            "CompressedHeader expected 7 bytes but got 3 bytes",
        ),
        (
            ProtocolError::IncompleteCompressedData { expected: 107, got: 7 },
            "Incomplete compressed data: expected 107 bytes but got 7 bytes",
        ),
        (
            ProtocolError::CompressionUnsupported { compressed: 100, uncompressed: 2050 },
            "Compressed protocol data detected (compressed: 100, uncompressed: 2050), but decompression is not supported in this build",
        ),
        (
            ProtocolError::PrepareOkTooShort { got: 4 },
            "PrepareOk payload too short: expected at least 5 bytes but got 4 bytes",
        ),
        (
            ProtocolError::UnexpectedStatus { status: 0x0b },
            "expected 0x00 (COM_STMT_PREPARE_OK) but found 0x0b",
        ),
        (ProtocolError::PacketEmpty, "Packet empty"),
        (
            ProtocolError::TooManyInvalidPackets { skipped: 10 },
            "Too many invalid packets (10)",
        ),
        (
            ProtocolError::NotOkPacket { header: 0x01 },
            "expected 0x00 or 0xfe (OK_Packet) but found 0x01",
        ),
        (
            ProtocolError::NotEofPacket { header: 0x00 },
            "expected 0xfe (EOF_Packet) but found 0x00",
        ),
        (
            ProtocolError::NotErrPacket { header: 0xfe },
            "expected 0xff (ERR_Packet) but found 0xfe",
        ),
        (
            ProtocolError::Truncated { needed: 8, remaining: 5 },
            "packet too short: needed 8 more bytes but 5 remain",
        ),
        (ProtocolError::InvalidUtf8, "string is not valid UTF-8"),
    ];
    for (error, message) in cases {
        assert_eq!(error.message(), message);
    }
}
