//! The response to a prepared statement, in the forms that servers send it.
use crate::buf::{
    advance, as_slice, bytes_of, get_u16_le, get_u32_le, get_u8, law_le_number_is_read_back, le_bytes,
    le_nat, lemma_le_nat_3, lemma_le_nat_bound, lemma_pow_256, lemma_u24_bytes, u24_bytes,
};
use crate::capabilities::Capabilities;
use crate::error::ProtocolError;
use crate::packet::ProtocolDecode;
use bytes::Bytes;
use vstd::arithmetic::power::*;
use vstd::prelude::*;
use vstd::slice::*;

verus! {

/// The header of the compressed protocol.
#[derive(Debug, Clone, Copy, PartialEq, Eq, Structural)]
pub struct CompressedHeader {
    /// The length of the data that follows the header.
    pub compressed_length: u32,
    pub compressed_sequence_id: u8,
    /// The length of the data once decompressed, or zero for data that is not
    /// compressed.
    pub uncompressed_length: u32,
}

/// The number of bytes in a compressed-protocol header.
pub const COMPRESSED_HEADER_LEN: usize = 7;

/// From this length on, data that claims to be compressed is taken at its word.
pub const MIN_COMPRESSED_LEN: u32 = 100;

/// Three bytes as a little-endian number, put together bit by bit.
fn u24(b0: u8, b1: u8, b2: u8) -> (r: u32)
    ensures
        r == b0 + 256 * b1 + 65536 * b2,
{
    let x = b0 as u32;
    let y = b1 as u32;
    let z = b2 as u32;
    assert(x | y << 8 | z << 16 == x + 256 * y + 65536 * z) by (bit_vector)
        requires
            x < 256,
            y < 256,
            z < 256,
    ;
    x | y << 8 | z << 16
}

impl CompressedHeader {
    /// Both lengths fit in three bytes.
    pub open spec fn wf(self) -> bool {
        &&& self.compressed_length < 0x100_0000
        &&& self.uncompressed_length < 0x100_0000
    }

    /// The header that the first seven bytes of `s` hold: a length in three bytes,
    /// a sequence number, and another length in three bytes.
    pub open spec fn at_front(s: Seq<u8>) -> CompressedHeader {
        CompressedHeader {
            compressed_length: le_nat(s.subrange(0, 3)) as u32,
            compressed_sequence_id: s[3],
            uncompressed_length: le_nat(s.subrange(4, 7)) as u32,
        }
    }

    /// Reads the header at the front of a buffer.
    pub fn decode(buf: &[u8]) -> (r: Result<CompressedHeader, ProtocolError>)
        ensures
            buf@.len() < COMPRESSED_HEADER_LEN ==> r == Err::<CompressedHeader, ProtocolError>(
                ProtocolError::CompressedHeaderTooShort { got: buf@.len() as usize },
            ),
            buf@.len() >= COMPRESSED_HEADER_LEN ==> r == Ok::<CompressedHeader, ProtocolError>(
                Self::at_front(buf@),
            ) && Self::at_front(buf@).wf(),
    {
        if buf.len() < COMPRESSED_HEADER_LEN {
            return Err(ProtocolError::CompressedHeaderTooShort { got: buf.len() });
        }
        let compressed_length: u32 = u24(buf[0], buf[1], buf[2]);
        let compressed_sequence_id: u8 = buf[3];
        let uncompressed_length: u32 = u24(buf[4], buf[5], buf[6]);
        proof {
            lemma_le_nat_3(buf@.subrange(0, 3));
            lemma_le_nat_3(buf@.subrange(4, 7));
        }
        Ok(CompressedHeader { compressed_length, compressed_sequence_id, uncompressed_length })
    }

    /// The data that follows this header in `s`. It is taken as it stands where it
    /// is not compressed, or too short for that to be credible.
    pub open spec fn data_in(self, s: Seq<u8>) -> Result<Seq<u8>, ProtocolError> {
        let end = COMPRESSED_HEADER_LEN + self.compressed_length;
        if s.len() < end {
            Err(
                ProtocolError::IncompleteCompressedData {
                    expected: end as usize,
                    got: s.len() as usize,
                },
            )
        } else if self.uncompressed_length == 0 || self.compressed_length < MIN_COMPRESSED_LEN {
            Ok(s.subrange(COMPRESSED_HEADER_LEN as int, end))
        } else {
            Err(
                ProtocolError::CompressionUnsupported {
                    compressed: self.compressed_length,
                    uncompressed: self.uncompressed_length,
                },
            )
        }
    }

    /// Takes the data that follows this header out of a buffer that begins with
    /// the header.
    pub fn data(&self, buf: &[u8]) -> (r: Result<Bytes, ProtocolError>)
        requires
            self.wf(),
        ensures
            self.data_in(buf@) matches Ok(s) ==> (r matches Ok(b) && bytes_of(b) == s),
            self.data_in(buf@) matches Err(e) ==> r == Err::<Bytes, ProtocolError>(e),
    {
        let end: usize = COMPRESSED_HEADER_LEN + self.compressed_length as usize;
        if buf.len() < end {
            return Err(
                ProtocolError::IncompleteCompressedData { expected: end, got: buf.len() },
            );
        }
        let compressed_data = slice_subrange(buf, COMPRESSED_HEADER_LEN, end);
        if self.uncompressed_length == 0 {
            Ok(Bytes::copy_from_slice(compressed_data))
        } else if self.compressed_length < MIN_COMPRESSED_LEN {
            Ok(Bytes::copy_from_slice(compressed_data))
        } else {
            Err(
                ProtocolError::CompressionUnsupported {
                    compressed: self.compressed_length,
                    uncompressed: self.uncompressed_length,
                },
            )
        }
    }
}

/// A statement was prepared.
#[derive(Debug, Clone, Copy, PartialEq, Eq, Structural)]
pub struct PrepareOk {
    pub statement_id: u32,
    pub columns: u16,
    pub params: u16,
    pub warnings: u16,
}

/// The number of bytes in a complete prepare response: status (1), statement id
/// (4), columns (2), params (2), reserved (1), warnings (2).
pub const STANDARD_SIZE: usize = 12;

/// The number of bytes in a prepare response that ends after the statement id.
pub const SHORT_SIZE: usize = 5;

impl PrepareOk {
    /// What the payload of a prepare response says. A payload that is not complete
    /// counts only up to its statement id.
    pub open spec fn payload(s: Seq<u8>) -> Result<PrepareOk, ProtocolError> {
        if s.len() < SHORT_SIZE {
            Err(ProtocolError::PrepareOkTooShort { got: s.len() as usize })
        } else if s[0] != 0 {
            Err(ProtocolError::UnexpectedStatus { status: s[0] })
        } else {
            let statement_id = le_nat(s.subrange(1, 5)) as u32;
            if s.len() >= STANDARD_SIZE {
                Ok(
                    PrepareOk {
                        statement_id,
                        columns: le_nat(s.subrange(5, 7)) as u16,
                        params: le_nat(s.subrange(7, 9)) as u16,
                        warnings: le_nat(s.subrange(10, 12)) as u16,
                    },
                )
            } else {
                Ok(PrepareOk { statement_id, columns: 0, params: 0, warnings: 0 })
            }
        }
    }

    /// Reads the payload of a prepare response.
    pub fn parse_prepare_ok_payload(buf: Bytes) -> (r: Result<PrepareOk, ProtocolError>)
        ensures
            r == Self::payload(bytes_of(buf)),
    {
        let ghost s = bytes_of(buf);
        let mut buf = buf;
        let len: usize = as_slice(&buf).len();
        if len < SHORT_SIZE {
            return Err(ProtocolError::PrepareOkTooShort { got: len });
        }
        let status: u8 = get_u8(&mut buf);
        if status != 0x00 {
            return Err(ProtocolError::UnexpectedStatus { status });
        }
        assert(s.skip(1).take(4) == s.subrange(1, 5));
        let statement_id: u32 = get_u32_le(&mut buf);
        if len >= STANDARD_SIZE {
            assert(bytes_of(buf).take(2) == s.subrange(5, 7));
            let columns: u16 = get_u16_le(&mut buf);
            assert(bytes_of(buf).take(2) == s.subrange(7, 9));
            let params: u16 = get_u16_le(&mut buf);
            advance(&mut buf, 1);  // reserved
            assert(bytes_of(buf).take(2) == s.subrange(10, 12));
            let warnings: u16 = get_u16_le(&mut buf);
            Ok(PrepareOk { statement_id, columns, params, warnings })
        } else {
            Ok(PrepareOk { statement_id, columns: 0, params: 0, warnings: 0 })
        }
    }
}

impl ProtocolDecode for PrepareOk {
    /// A packet of seven bytes is a compressed-protocol header; any other packet
    /// is the payload itself.
    open spec fn decoded(s: Seq<u8>, capabilities: Capabilities) -> Result<
        PrepareOk,
        ProtocolError,
    > {
        if s.len() == COMPRESSED_HEADER_LEN {
            match CompressedHeader::at_front(s).data_in(s) {
                Ok(data) => Self::payload(data),
                Err(e) => Err(e),
            }
        } else {
            Self::payload(s)
        }
    }

    open spec fn comes_late() -> bool {
        true
    }

    fn decode_with(buf: Bytes, capabilities: Capabilities) -> (r: Result<PrepareOk, ProtocolError>) {
        let slice = as_slice(&buf);
        let payload: Bytes = if slice.len() == COMPRESSED_HEADER_LEN {
            let header: CompressedHeader = CompressedHeader::decode(slice)?;
            header.data(slice)?
        } else {
            buf
        };
        Self::parse_prepare_ok_payload(payload)
    }

    fn passes_over() -> (r: bool) {
        true
    }
}

impl CompressedHeader {
    /// The header on the wire.
    pub open spec fn wire(self) -> Seq<u8> {
        u24_bytes(self.compressed_length as nat).push(self.compressed_sequence_id) + u24_bytes(
            self.uncompressed_length as nat,
        )
    }
}

/// A header is read back as it was written, whatever follows it.
pub proof fn law_compressed_header_is_read_back(header: CompressedHeader, rest: Seq<u8>)
    requires
        header.wf(),
    ensures
        header.wire().len() == COMPRESSED_HEADER_LEN,
        CompressedHeader::at_front(header.wire() + rest) == header,
{
    let s = header.wire() + rest;
    lemma_u24_bytes(header.compressed_length as nat);
    lemma_u24_bytes(header.uncompressed_length as nat);
    assert(s.subrange(0, 3) == u24_bytes(header.compressed_length as nat));
    assert(s.subrange(4, 7) == u24_bytes(header.uncompressed_length as nat));
}

/// A packet is a prepare response exactly when it reaches to the end of the
/// statement id, opens with a zero, and is not as long as a compressed header.
pub proof fn law_prepare_ok_is_readable(s: Seq<u8>, capabilities: Capabilities)
    ensures
        PrepareOk::decoded(s, capabilities) is Ok <==> s.len() >= SHORT_SIZE && s.len()
            != COMPRESSED_HEADER_LEN && s[0] == 0,
{
    if s.len() == COMPRESSED_HEADER_LEN {
        law_header_alone_is_no_response(s, capabilities);
    }
}

/// A compressed header with nothing behind it never yields a response: either data
/// is missing, or there is none. Decompression is never called for.
pub proof fn law_header_alone_is_no_response(s: Seq<u8>, capabilities: Capabilities)
    requires
        s.len() == COMPRESSED_HEADER_LEN,
    ensures
        PrepareOk::decoded(s, capabilities) == Err::<PrepareOk, ProtocolError>(
            if le_nat(s.subrange(0, 3)) == 0 {
                ProtocolError::PrepareOkTooShort { got: 0 }
            } else {
                ProtocolError::IncompleteCompressedData {
                    expected: (COMPRESSED_HEADER_LEN + le_nat(s.subrange(0, 3))) as usize,
                    got: COMPRESSED_HEADER_LEN,
                }
            },
        ),
{
    lemma_le_nat_3(s.subrange(0, 3));
}

/// Every readable response holds the statement id in the four bytes behind the
/// status, whether the response is complete or not. The other numbers are those of
/// a complete response, or else zero.
pub proof fn law_prepare_ok_numbers(s: Seq<u8>, capabilities: Capabilities)
    ensures
        PrepareOk::decoded(s, capabilities) matches Ok(p) ==> {
            &&& p.statement_id == le_nat(s.subrange(1, 5))
            &&& s.len() >= STANDARD_SIZE ==> {
                &&& p.columns == le_nat(s.subrange(5, 7))
                &&& p.params == le_nat(s.subrange(7, 9))
                &&& p.warnings == le_nat(s.subrange(10, 12))
            }
            &&& s.len() < STANDARD_SIZE ==> p.columns == 0 && p.params == 0 && p.warnings == 0
        },
{
    law_prepare_ok_is_readable(s, capabilities);
    assert(pow(256, 2) == 0x1_0000 && pow(256, 4) == 0x1_0000_0000) by {
        reveal_with_fuel(pow, 5);
    }
    lemma_le_nat_bound(s.subrange(1, 5));
    lemma_le_nat_bound(s.subrange(5, 7));
    lemma_le_nat_bound(s.subrange(7, 9));
    lemma_le_nat_bound(s.subrange(10, 12));
}

/// Nothing behind a complete response changes it.
pub proof fn law_bytes_behind_are_ignored(s: Seq<u8>, more: Seq<u8>, capabilities: Capabilities)
    requires
        s.len() >= STANDARD_SIZE,
    ensures
        PrepareOk::decoded(s + more, capabilities) == PrepareOk::decoded(s, capabilities),
{
    let t = s + more;
    assert(t.subrange(1, 5) == s.subrange(1, 5));
    assert(t.subrange(5, 7) == s.subrange(5, 7));
    assert(t.subrange(7, 9) == s.subrange(7, 9));
    assert(t.subrange(10, 12) == s.subrange(10, 12));
}

impl PrepareOk {
    /// The bytes of a complete prepare response, with a reserved byte that says nothing.
    pub open spec fn wire(self, reserved: u8) -> Seq<u8> {
        seq![0x00u8] + le_bytes(self.statement_id as nat, 4) + le_bytes(self.columns as nat, 2)
            + le_bytes(self.params as nat, 2) + seq![reserved] + le_bytes(self.warnings as nat, 2)
    }
}

/// A complete prepare response is read back as it was written, whatever the reserved
/// byte holds and whatever follows.
pub proof fn law_prepare_ok_is_read_back(
    response: PrepareOk,
    reserved: u8,
    rest: Seq<u8>,
    capabilities: Capabilities,
)
    ensures
        response.wire(reserved).len() == 12,
        PrepareOk::payload(response.wire(reserved) + rest) == Ok::<PrepareOk, ProtocolError>(
            response,
        ),
        PrepareOk::decoded(response.wire(reserved) + rest, capabilities) == Ok::<
            PrepareOk,
            ProtocolError,
        >(response),
{
    lemma_pow_256();
    law_le_number_is_read_back(response.statement_id as nat, 4);
    law_le_number_is_read_back(response.columns as nat, 2);
    law_le_number_is_read_back(response.params as nat, 2);
    law_le_number_is_read_back(response.warnings as nat, 2);
    let s = response.wire(reserved) + rest;
    assert(s.subrange(1, 5) =~= le_bytes(response.statement_id as nat, 4));
    assert(s.subrange(5, 7) =~= le_bytes(response.columns as nat, 2));
    assert(s.subrange(7, 9) =~= le_bytes(response.params as nat, 2));
    assert(s.subrange(10, 12) =~= le_bytes(response.warnings as nat, 2));
}

/// A prepare response that ends before its twelfth byte yields its statement id, and
/// zero for the other numbers. As a packet it must not have seven bytes.
pub proof fn law_short_prepare_ok_is_read_back(
    statement_id: u32,
    rest: Seq<u8>,
    capabilities: Capabilities,
)
    requires
        rest.len() < 7,
    ensures
        PrepareOk::payload(seq![0x00u8] + le_bytes(statement_id as nat, 4) + rest) == Ok::<
            PrepareOk,
            ProtocolError,
        >(PrepareOk { statement_id, columns: 0, params: 0, warnings: 0 }),
        rest.len() != 2 ==> PrepareOk::decoded(
            seq![0x00u8] + le_bytes(statement_id as nat, 4) + rest,
            capabilities,
        ) == Ok::<PrepareOk, ProtocolError>(
            PrepareOk { statement_id, columns: 0, params: 0, warnings: 0 },
        ),
{
    lemma_pow_256();
    law_le_number_is_read_back(statement_id as nat, 4);
    let s = seq![0x00u8] + le_bytes(statement_id as nat, 4) + rest;
    assert(s.subrange(1, 5) =~= le_bytes(statement_id as nat, 4));
}

/// A prepare response of fewer than five bytes is refused for its length, a longer one
/// that does not open with zero for its status, and a packet of seven bytes for the
/// data that it announces: it holds none of it.
pub proof fn law_prepare_ok_is_refused(s: Seq<u8>, capabilities: Capabilities)
    ensures
        s.len() < 5 ==> PrepareOk::payload(s) == Err::<PrepareOk, ProtocolError>(
            ProtocolError::PrepareOkTooShort { got: s.len() as usize },
        ) && PrepareOk::decoded(s, capabilities) == PrepareOk::payload(s),
        s.len() >= 5 && s[0] != 0 ==> PrepareOk::payload(s) == Err::<PrepareOk, ProtocolError>(
            ProtocolError::UnexpectedStatus { status: s[0] },
        ),
        s.len() >= 5 && s.len() != 7 && s[0] != 0 ==> PrepareOk::decoded(s, capabilities) == Err::<
            PrepareOk,
            ProtocolError,
        >(ProtocolError::UnexpectedStatus { status: s[0] }),
        s.len() == 7 ==> {
            let announced = s[0] + 256 * s[1] + 65536 * s[2];
            PrepareOk::decoded(s, capabilities) == Err::<PrepareOk, ProtocolError>(
                if announced == 0 {
                    ProtocolError::PrepareOkTooShort { got: 0 }
                } else {
                    ProtocolError::IncompleteCompressedData {
                        expected: (7 + announced) as usize,
                        got: 7,
                    }
                },
            )
        },
{
    if s.len() == 7 {
        law_header_alone_is_no_response(s, capabilities);
        lemma_le_nat_3(s.subrange(0, 3));
    }
}

/// A compressed header holds a length in its first three bytes, a sequence number in
/// the fourth, and another length in the three behind it, each length with its least
/// significant byte first.
pub proof fn law_compressed_header_byte_for_byte(s: Seq<u8>)
    requires
        s.len() >= 7,
    ensures
        CompressedHeader::at_front(s).compressed_length == s[0] + 256 * s[1] + 65536 * s[2],
        CompressedHeader::at_front(s).compressed_sequence_id == s[3],
        CompressedHeader::at_front(s).uncompressed_length == s[4] + 256 * s[5] + 65536 * s[6],
{
    lemma_le_nat_3(s.subrange(0, 3));
    lemma_le_nat_3(s.subrange(4, 7));
}

/// The data behind a compressed header is all the bytes that the header announces and
/// no more, where it is not compressed or has fewer than a hundred bytes. It is never
/// decompressed, and a buffer that ends before it is refused with both lengths.
pub proof fn law_data_behind_a_header(
    header: CompressedHeader,
    data: Seq<u8>,
    rest: Seq<u8>,
    s: Seq<u8>,
)
    requires
        header.wf(),
        data.len() == header.compressed_length,
    ensures
        header.uncompressed_length == 0 || data.len() < 100 ==> header.data_in(
            header.wire() + data + rest,
        ) == Ok::<Seq<u8>, ProtocolError>(data),
        header.uncompressed_length != 0 && data.len() >= 100 ==> header.data_in(
            header.wire() + data + rest,
        ) == Err::<Seq<u8>, ProtocolError>(
            ProtocolError::CompressionUnsupported {
                compressed: header.compressed_length,
                uncompressed: header.uncompressed_length,
            },
        ),
        s.len() < 7 + header.compressed_length ==> header.data_in(s) == Err::<
            Seq<u8>,
            ProtocolError,
        >(
            ProtocolError::IncompleteCompressedData {
                expected: (7 + header.compressed_length) as usize,
                got: s.len() as usize,
            },
        ),
{
    law_compressed_header_is_read_back(header, data + rest);
    let all = header.wire() + data + rest;
    assert(all.subrange(7, 7 + header.compressed_length) =~= data);
}

/// A prepare response comes late: unreadable packets may come ahead of it.
pub proof fn law_prepare_ok_comes_late()
    ensures
        PrepareOk::comes_late(),
{
}

} // verus!
