//! What can go wrong on a connection.
use crate::text::{decimal, hex_byte, push_decimal, push_hex};
use vstd::prelude::*;
use vstd::string::*;

verus! {

/// Data from the server that the protocol does not allow.
#[derive(Debug, Clone, Copy, PartialEq, Eq, Structural)]
pub enum ProtocolError {
    /// A compressed-protocol header with fewer than seven bytes.
    CompressedHeaderTooShort { got: usize },
    /// A compressed-protocol header that promises more data than there is.
    IncompleteCompressedData { expected: usize, got: usize },
    /// Data that only decompression could read.
    CompressionUnsupported { compressed: u32, uncompressed: u32 },
    /// A prepare response with fewer than five bytes.
    PrepareOkTooShort { got: usize },
    /// A prepare response whose status byte is not zero.
    UnexpectedStatus { status: u8 },
    /// A packet without a payload.
    PacketEmpty,
    /// No prepare response among so many packets, nor behind them.
    TooManyInvalidPackets { skipped: u32 },
    /// An OK packet with another header byte.
    NotOkPacket { header: u8 },
    /// An EOF packet with another header byte.
    NotEofPacket { header: u8 },
    /// An error packet with another header byte.
    NotErrPacket { header: u8 },
    /// A packet that ends within a field.
    Truncated { needed: usize, remaining: usize },
    /// A string that is not UTF-8.
    InvalidUtf8,
}

/// An error that the server reported.
#[derive(Debug)]
pub struct ErrPacket {
    pub error_code: u16,
    pub sql_state: Option<String>,
    pub error_message: String,
}

/// The mathematical content of an [`ErrPacket`].
#[verifier::ext_equal]
pub struct ErrPacketView {
    pub error_code: u16,
    pub sql_state: Option<Seq<char>>,
    pub error_message: Seq<char>,
}

impl View for ErrPacket {
    type V = ErrPacketView;

    open spec fn view(&self) -> ErrPacketView {
        ErrPacketView {
            error_code: self.error_code,
            sql_state: match self.sql_state {
                Some(s) => Some(s@),
                None => None,
            },
            error_message: self.error_message@,
        }
    }
}

/// The error of every operation on a stream.
#[derive(Debug)]
pub enum Error {
    /// The server sent something that cannot be read.
    Protocol(ProtocolError),
    /// The server answered with an error packet.
    Database(ErrPacket),
}

/// The mathematical content of an [`Error`].
#[verifier::ext_equal]
pub enum ErrorView {
    Protocol(ProtocolError),
    Database(ErrPacketView),
}

impl View for Error {
    type V = ErrorView;

    open spec fn view(&self) -> ErrorView {
        match *self {
            Error::Protocol(e) => ErrorView::Protocol(e),
            Error::Database(p) => ErrorView::Database(p@),
        }
    }
}

impl ProtocolError {
    /// The text of [`ProtocolError::message`].
    pub open spec fn text(self) -> Seq<char> {
        match self {
            ProtocolError::CompressedHeaderTooShort { got } =>
                "CompressedHeader expected 7 bytes but got "@ + decimal(got as nat) + " bytes"@,
            ProtocolError::IncompleteCompressedData { expected, got } =>
                "Incomplete compressed data: expected "@ + decimal(expected as nat)
                    + " bytes but got "@ + decimal(got as nat) + " bytes"@,
            ProtocolError::CompressionUnsupported { compressed, uncompressed } =>
                "Compressed protocol data detected (compressed: "@ + decimal(compressed as nat)
                    + ", uncompressed: "@ + decimal(uncompressed as nat)
                    + "), but decompression is not supported in this build"@,
            ProtocolError::PrepareOkTooShort { got } =>
                "PrepareOk payload too short: expected at least 5 bytes but got "@
                    + decimal(got as nat) + " bytes"@,
            ProtocolError::UnexpectedStatus { status } =>
                "expected 0x00 (COM_STMT_PREPARE_OK) but found 0x"@ + hex_byte(status),
            ProtocolError::PacketEmpty => "Packet empty"@,
            ProtocolError::TooManyInvalidPackets { skipped } =>
                "Too many invalid packets ("@ + decimal(skipped as nat) + ")"@,
            ProtocolError::NotOkPacket { header } =>
                "expected 0x00 or 0xfe (OK_Packet) but found 0x"@ + hex_byte(header),
            ProtocolError::NotEofPacket { header } =>
                "expected 0xfe (EOF_Packet) but found 0x"@ + hex_byte(header),
            ProtocolError::NotErrPacket { header } =>
                "expected 0xff (ERR_Packet) but found 0x"@ + hex_byte(header),
            ProtocolError::Truncated { needed, remaining } =>
                "packet too short: needed "@ + decimal(needed as nat) + " more bytes but "@
                    + decimal(remaining as nat) + " remain"@,
            ProtocolError::InvalidUtf8 => "string is not valid UTF-8"@,
        }
    }

    /// The error in words.
    pub fn message(&self) -> (r: String)
        ensures
            r@ == self.text(),
    {
        let mut out = String::new();
        match *self {
            ProtocolError::CompressedHeaderTooShort { got } => {
                out.append("CompressedHeader expected 7 bytes but got ");
                push_decimal(&mut out, got as u64);
                out.append(" bytes");
            },
            ProtocolError::IncompleteCompressedData { expected, got } => {
                out.append("Incomplete compressed data: expected ");
                push_decimal(&mut out, expected as u64);
                out.append(" bytes but got ");
                push_decimal(&mut out, got as u64);
                out.append(" bytes");
            },
            ProtocolError::CompressionUnsupported { compressed, uncompressed } => {
                out.append("Compressed protocol data detected (compressed: ");
                push_decimal(&mut out, compressed as u64);
                out.append(", uncompressed: ");
                push_decimal(&mut out, uncompressed as u64);
                out.append("), but decompression is not supported in this build");
            },
            ProtocolError::PrepareOkTooShort { got } => {
                out.append("PrepareOk payload too short: expected at least 5 bytes but got ");
                push_decimal(&mut out, got as u64);
                out.append(" bytes");
            },
            ProtocolError::UnexpectedStatus { status } => {
                out.append("expected 0x00 (COM_STMT_PREPARE_OK) but found 0x");
                push_hex(&mut out, status);
            },
            ProtocolError::PacketEmpty => {
                out.append("Packet empty");
            },
            ProtocolError::TooManyInvalidPackets { skipped } => {
                out.append("Too many invalid packets (");
                push_decimal(&mut out, skipped as u64);
                out.append(")");
            },
            ProtocolError::NotOkPacket { header } => {
                out.append("expected 0x00 or 0xfe (OK_Packet) but found 0x");
                push_hex(&mut out, header);
            },
            ProtocolError::NotEofPacket { header } => {
                out.append("expected 0xfe (EOF_Packet) but found 0x");
                push_hex(&mut out, header);
            },
            ProtocolError::NotErrPacket { header } => {
                out.append("expected 0xff (ERR_Packet) but found 0x");
                push_hex(&mut out, header);
            },
            ProtocolError::Truncated { needed, remaining } => {
                out.append("packet too short: needed ");
                push_decimal(&mut out, needed as u64);
                out.append(" more bytes but ");
                push_decimal(&mut out, remaining as u64);
                out.append(" remain");
            },
            ProtocolError::InvalidUtf8 => {
                out.append("string is not valid UTF-8");
            },
        }
        out
    }
}

/// The content of an error is what it holds: the code, the state where there is one,
/// and the message.
pub proof fn law_error_content_is_what_it_holds(packet: ErrPacket, e: ProtocolError)
    ensures
        packet@.error_code == packet.error_code,
        packet@.error_message == packet.error_message@,
        packet.sql_state is None ==> packet@.sql_state is None,
        packet.sql_state matches Some(state) ==> packet@.sql_state == Some(state@),
        Error::Protocol(e)@ == ErrorView::Protocol(e),
        Error::Database(packet)@ == ErrorView::Database(packet@),
{
}

/// A length that a message gives is the decimal number between its words.
pub proof fn law_messages_give_lengths(a: usize, b: usize, c: u32, d: u32)
    ensures
        (ProtocolError::CompressedHeaderTooShort { got: a }).text()
            == "CompressedHeader expected 7 bytes but got "@ + decimal(a as nat) + " bytes"@,
        (ProtocolError::IncompleteCompressedData { expected: a, got: b }).text()
            == "Incomplete compressed data: expected "@ + decimal(a as nat) + " bytes but got "@
            + decimal(b as nat) + " bytes"@,
        (ProtocolError::CompressionUnsupported { compressed: c, uncompressed: d }).text()
            == "Compressed protocol data detected (compressed: "@ + decimal(c as nat)
            + ", uncompressed: "@ + decimal(d as nat)
            + "), but decompression is not supported in this build"@,
        (ProtocolError::PrepareOkTooShort { got: a }).text()
            == "PrepareOk payload too short: expected at least 5 bytes but got "@ + decimal(
            a as nat,
        ) + " bytes"@,
        (ProtocolError::Truncated { needed: a, remaining: b }).text()
            == "packet too short: needed "@ + decimal(a as nat) + " more bytes but "@ + decimal(
            b as nat,
        ) + " remain"@,
        (ProtocolError::TooManyInvalidPackets { skipped: c }).text()
            == "Too many invalid packets ("@ + decimal(c as nat) + ")"@,
{
}

/// A byte that a message gives is the last thing in it, in hexadecimal.
pub proof fn law_messages_end_with_the_byte(b: u8)
    ensures
        (ProtocolError::UnexpectedStatus { status: b }).text()
            == "expected 0x00 (COM_STMT_PREPARE_OK) but found 0x"@ + hex_byte(b),
        (ProtocolError::NotOkPacket { header: b }).text()
            == "expected 0x00 or 0xfe (OK_Packet) but found 0x"@ + hex_byte(b),
        (ProtocolError::NotEofPacket { header: b }).text()
            == "expected 0xfe (EOF_Packet) but found 0x"@ + hex_byte(b),
        (ProtocolError::NotErrPacket { header: b }).text()
            == "expected 0xff (ERR_Packet) but found 0x"@ + hex_byte(b),
        ProtocolError::PacketEmpty.text() == "Packet empty"@,
        ProtocolError::InvalidUtf8.text() == "string is not valid UTF-8"@,
{
}

} // verus!
