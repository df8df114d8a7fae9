//! Packets, and the three that end a response: OK, EOF and ERR.
use crate::buf::{
    as_slice, bytes_of, get_u16_le, get_u8, get_uint_le, law_le_number_is_read_back, le_bytes, le_nat,
    lemma_le_nat_2, lemma_le_nat_bound, lemma_pow_256,
};
use crate::capabilities::{
    law_capabilities_are_bits, Capabilities, Status, DEPRECATE_EOF, PROTOCOL_41,
};
use crate::error::{ErrPacket, ErrPacketView, ProtocolError};
use bytes::Bytes;
use vstd::arithmetic::power::*;
use vstd::prelude::*;
use vstd::slice::*;
use vstd::utf8::*;

verus! {

/// The payload of one packet.
pub struct Packet(pub Bytes);

impl View for Packet {
    type V = Seq<u8>;

    open spec fn view(&self) -> Seq<u8> {
        bytes_of(self.0)
    }
}

/// A response that is read from the payload of one packet.
pub trait ProtocolDecode: Sized {
    /// What a payload says, on a connection with these capabilities.
    spec fn decoded(s: Seq<u8>, capabilities: Capabilities) -> Result<Self, ProtocolError>;

    /// Whether some servers send unreadable packets ahead of this response.
    spec fn comes_late() -> bool;

    fn decode_with(buf: Bytes, capabilities: Capabilities) -> (r: Result<Self, ProtocolError>)
        ensures
            r == Self::decoded(bytes_of(buf), capabilities),
    ;

    /// Whether packets that cannot be read are passed over while this response
    /// is awaited.
    fn passes_over() -> (r: bool)
        ensures
            r == Self::comes_late(),
    ;
}

/// A field of `n` bytes at the front of `s`: its little-endian number, and what
/// follows it.
pub open spec fn uint(s: Seq<u8>, n: nat) -> Result<(nat, Seq<u8>), ProtocolError> {
    if s.len() < n {
        Err(ProtocolError::Truncated { needed: n as usize, remaining: s.len() as usize })
    } else {
        Ok((le_nat(s.take(n as int)), s.skip(n as int)))
    }
}

/// A length-encoded integer at the front of `s`, and what follows it. The first
/// byte is the number itself, or says how many bytes of it follow.
pub open spec fn uint_lenenc(s: Seq<u8>) -> Result<(nat, Seq<u8>), ProtocolError> {
    if s.len() == 0 {
        Err(ProtocolError::Truncated { needed: 1, remaining: 0 })
    } else if s[0] == 0xfc {
        uint(s.skip(1), 2)
    } else if s[0] == 0xfd {
        uint(s.skip(1), 3)
    } else if s[0] == 0xfe {
        uint(s.skip(1), 8)
    } else {
        Ok((s[0] as nat, s.skip(1)))
    }
}

/// A length-encoded integer fits in 64 bits.
pub proof fn lemma_uint_lenenc_bound(s: Seq<u8>)
    ensures
        uint_lenenc(s) matches Ok((v, _)) ==> v <= u64::MAX,
{
    let t = s.skip(1);
    assert(pow(256, 2) == 0x1_0000 && pow(256, 3) == 0x100_0000 && pow(256, 8)
        == 0x1_0000_0000_0000_0000) by {
        reveal_with_fuel(pow, 9);
    }
    lemma_le_nat_bound(t.take(2));
    lemma_le_nat_bound(t.take(3));
    lemma_le_nat_bound(t.take(8));
}

/// The first byte of `s`, and what follows it.
pub open spec fn header(s: Seq<u8>) -> Result<(u8, Seq<u8>), ProtocolError> {
    if s.len() == 0 {
        Err(ProtocolError::Truncated { needed: 1, remaining: 0 })
    } else {
        Ok((s[0], s.skip(1)))
    }
}

fn take_header(buf: &mut Bytes) -> (r: Result<u8, ProtocolError>)
    ensures
        header(bytes_of(*old(buf))) matches Ok((v, rest)) ==> r == Ok::<u8, ProtocolError>(v)
            && bytes_of(*final(buf)) == rest,
        header(bytes_of(*old(buf))) matches Err(e) ==> r == Err::<u8, ProtocolError>(e)
            && *final(buf) == *old(buf),
{
    if as_slice(buf).len() == 0 {
        return Err(ProtocolError::Truncated { needed: 1, remaining: 0 });
    }
    Ok(get_u8(buf))
}

fn take_u16(buf: &mut Bytes) -> (r: Result<u16, ProtocolError>)
    ensures
        uint(bytes_of(*old(buf)), 2) matches Ok((v, rest)) ==> r == Ok::<u16, ProtocolError>(
            v as u16,
        ) && v < 0x1_0000 && bytes_of(*final(buf)) == rest,
        uint(bytes_of(*old(buf)), 2) matches Err(e) ==> r == Err::<u16, ProtocolError>(e)
            && *final(buf) == *old(buf),
{
    let remaining: usize = as_slice(buf).len();
    if remaining < 2 {
        return Err(ProtocolError::Truncated { needed: 2, remaining });
    }
    Ok(get_u16_le(buf))
}

fn take_uint(buf: &mut Bytes, n: usize) -> (r: Result<u64, ProtocolError>)
    requires
        n <= 8,
    ensures
        uint(bytes_of(*old(buf)), n as nat) matches Ok((v, rest)) ==> r == Ok::<
            u64,
            ProtocolError,
        >(v as u64) && v <= u64::MAX && bytes_of(*final(buf)) == rest,
        uint(bytes_of(*old(buf)), n as nat) matches Err(e) ==> r == Err::<u64, ProtocolError>(e)
            && *final(buf) == *old(buf),
{
    let remaining: usize = as_slice(buf).len();
    if remaining < n {
        return Err(ProtocolError::Truncated { needed: n, remaining });
    }
    Ok(get_uint_le(buf, n))
}

/// Takes a length-encoded integer off the front of a buffer. Where it is cut
/// short, only its first byte is taken.
pub fn get_uint_lenenc(buf: &mut Bytes) -> (r: Result<u64, ProtocolError>)
    ensures
        uint_lenenc(bytes_of(*old(buf))) matches Ok((v, rest)) ==> r == Ok::<u64, ProtocolError>(
            v as u64,
        ) && v <= u64::MAX && bytes_of(*final(buf)) == rest,
        uint_lenenc(bytes_of(*old(buf))) matches Err(e) ==> r == Err::<u64, ProtocolError>(e)
            && bytes_of(*final(buf)) == (if bytes_of(*old(buf)).len() == 0 {
            Seq::empty()
        } else {
            bytes_of(*old(buf)).skip(1)
        }),
{
    let first: u8 = take_header(buf)?;
    match first {
        0xfc => take_uint(buf, 2),
        0xfd => take_uint(buf, 3),
        0xfe => take_uint(buf, 8),
        v => Ok(v as u64),
    }
}

/// A command succeeded.
#[derive(Debug, Clone, Copy, PartialEq, Eq, Structural)]
pub struct OkPacket {
    pub affected_rows: u64,
    pub last_insert_id: u64,
    pub status: Status,
    pub warnings: u16,
}

impl OkPacket {
    /// What follows the header byte of an OK packet: two length-encoded integers,
    /// the server status and the number of warnings.
    pub open spec fn fields(s: Seq<u8>) -> Result<OkPacket, ProtocolError> {
        match uint_lenenc(s) {
            Err(e) => Err(e),
            Ok((affected_rows, s)) => match uint_lenenc(s) {
                Err(e) => Err(e),
                Ok((last_insert_id, s)) => match uint(s, 2) {
                    Err(e) => Err(e),
                    Ok((status, s)) => match uint(s, 2) {
                        Err(e) => Err(e),
                        Ok((warnings, _)) => Ok(
                            OkPacket {
                                affected_rows: affected_rows as u64,
                                last_insert_id: last_insert_id as u64,
                                status: Status { bits: status as u16 },
                                warnings: warnings as u16,
                            },
                        ),
                    },
                },
            },
        }
    }

    /// What an OK packet says.
    pub open spec fn content(s: Seq<u8>) -> Result<OkPacket, ProtocolError> {
        match header(s) {
            Err(e) => Err(e),
            Ok((h, rest)) => if h == 0x00 || h == 0xfe {
                OkPacket::fields(rest)
            } else {
                Err(ProtocolError::NotOkPacket { header: h })
            },
        }
    }
}

impl ProtocolDecode for OkPacket {
    open spec fn decoded(s: Seq<u8>, capabilities: Capabilities) -> Result<OkPacket, ProtocolError> {
        OkPacket::content(s)
    }

    open spec fn comes_late() -> bool {
        false
    }

    fn decode_with(buf: Bytes, capabilities: Capabilities) -> (r: Result<OkPacket, ProtocolError>) {
        let mut buf = buf;
        let h: u8 = take_header(&mut buf)?;
        if h != 0x00 && h != 0xfe {
            return Err(ProtocolError::NotOkPacket { header: h });
        }
        let affected_rows: u64 = get_uint_lenenc(&mut buf)?;
        let last_insert_id: u64 = get_uint_lenenc(&mut buf)?;
        let status: u16 = take_u16(&mut buf)?;
        let warnings: u16 = take_u16(&mut buf)?;
        Ok(OkPacket { affected_rows, last_insert_id, status: Status { bits: status }, warnings })
    }

    fn passes_over() -> (r: bool) {
        false
    }
}

/// A result set, or a part of one, is complete.
#[derive(Debug, Clone, Copy, PartialEq, Eq, Structural)]
pub struct EofPacket {
    pub warnings: u16,
    pub status: Status,
}

impl EofPacket {
    /// What follows the header byte of an EOF packet: the number of warnings and
    /// the server status.
    pub open spec fn fields(s: Seq<u8>) -> Result<EofPacket, ProtocolError> {
        match uint(s, 2) {
            Err(e) => Err(e),
            Ok((warnings, s)) => match uint(s, 2) {
                Err(e) => Err(e),
                Ok((status, _)) => Ok(
                    EofPacket { warnings: warnings as u16, status: Status { bits: status as u16 } },
                ),
            },
        }
    }

    /// What an EOF packet says.
    pub open spec fn content(s: Seq<u8>) -> Result<EofPacket, ProtocolError> {
        match header(s) {
            Err(e) => Err(e),
            Ok((h, rest)) => if h == 0xfe {
                EofPacket::fields(rest)
            } else {
                Err(ProtocolError::NotEofPacket { header: h })
            },
        }
    }
}

impl ProtocolDecode for EofPacket {
    open spec fn decoded(s: Seq<u8>, capabilities: Capabilities) -> Result<
        EofPacket,
        ProtocolError,
    > {
        EofPacket::content(s)
    }

    open spec fn comes_late() -> bool {
        false
    }

    fn decode_with(buf: Bytes, capabilities: Capabilities) -> (r: Result<EofPacket, ProtocolError>) {
        let mut buf = buf;
        let h: u8 = take_header(&mut buf)?;
        if h != 0xfe {
            return Err(ProtocolError::NotEofPacket { header: h });
        }
        let warnings: u16 = take_u16(&mut buf)?;
        let status: u16 = take_u16(&mut buf)?;
        Ok(EofPacket { warnings, status: Status { bits: status } })
    }

    fn passes_over() -> (r: bool) {
        false
    }
}

/// The end of a result set as these capabilities have it: an OK packet where EOF
/// packets are deprecated, else an EOF packet.
pub open spec fn end_of_rows(s: Seq<u8>, capabilities: Capabilities) -> Result<
    EofPacket,
    ProtocolError,
> {
    if capabilities.has(DEPRECATE_EOF) {
        match OkPacket::content(s) {
            Err(e) => Err(e),
            Ok(ok) => Ok(EofPacket { warnings: ok.warnings, status: ok.status }),
        }
    } else {
        EofPacket::content(s)
    }
}

impl Packet {
    /// Reads the packet as a response.
    pub fn decode_with<T: ProtocolDecode>(self, capabilities: Capabilities) -> (r: Result<
        T,
        ProtocolError,
    >)
        ensures
            r == T::decoded(self@, capabilities),
    {
        T::decode_with(self.0, capabilities)
    }

    /// Reads the packet as an OK packet.
    pub fn ok(self) -> (r: Result<OkPacket, ProtocolError>)
        ensures
            r == OkPacket::content(self@),
    {
        self.decode_with(Capabilities { bits: 0 })
    }

    /// Reads the packet as the end of a result set.
    pub fn eof(self, capabilities: Capabilities) -> (r: Result<EofPacket, ProtocolError>)
        ensures
            r == end_of_rows(self@, capabilities),
    {
        if capabilities.contains(DEPRECATE_EOF) {
            let ok: OkPacket = self.ok()?;
            Ok(EofPacket { warnings: ok.warnings, status: ok.status })
        } else {
            self.decode_with(capabilities)
        }
    }
}

/// `String::from_utf8`: the string that the bytes encode, or nothing where they
/// are not UTF-8.
#[verifier::external_body]
fn string_from_utf8(v: Vec<u8>) -> (r: Option<String>)
    ensures
        r is Some <==> valid_utf8(v@),
        r matches Some(s) ==> s@ == decode_utf8(v@),
{
    String::from_utf8(v).ok()
}

/// The string that the bytes encode.
pub open spec fn utf8(s: Seq<u8>) -> Result<Seq<char>, ProtocolError> {
    if valid_utf8(s) {
        Ok(decode_utf8(s))
    } else {
        Err(ProtocolError::InvalidUtf8)
    }
}

fn get_str(bytes: &[u8]) -> (r: Result<String, ProtocolError>)
    ensures
        utf8(bytes@) matches Ok(t) ==> (r matches Ok(s) && s@ == t),
        utf8(bytes@) matches Err(e) ==> r == Err::<String, ProtocolError>(e),
{
    match string_from_utf8(slice_to_vec(bytes)) {
        Some(s) => Ok(s),
        None => Err(ProtocolError::InvalidUtf8),
    }
}

impl ErrPacket {
    /// The SQL state at the front of `s`, where a `#` announces it, and what
    /// follows it.
    pub open spec fn state_field(s: Seq<u8>, capabilities: Capabilities) -> Result<
        (Option<Seq<char>>, Seq<u8>),
        ProtocolError,
    > {
        if capabilities.has(PROTOCOL_41) && s.len() > 0 && s[0] == 0x23 {
            if s.len() < 6 {
                Err(ProtocolError::Truncated { needed: 5, remaining: (s.len() - 1) as usize })
            } else {
                match utf8(s.subrange(1, 6)) {
                    Err(e) => Err(e),
                    Ok(state) => Ok((Some(state), s.skip(6))),
                }
            }
        } else {
            Ok((None, s))
        }
    }

    /// What an error packet says: an error code, an SQL state and a message that
    /// fills the rest.
    pub open spec fn decoded(s: Seq<u8>, capabilities: Capabilities) -> Result<
        ErrPacketView,
        ProtocolError,
    > {
        match header(s) {
            Err(e) => Err(e),
            Ok((h, s)) => if h != 0xff {
                Err(ProtocolError::NotErrPacket { header: h })
            } else {
                match uint(s, 2) {
                    Err(e) => Err(e),
                    Ok((code, s)) => match Self::state_field(s, capabilities) {
                        Err(e) => Err(e),
                        Ok((sql_state, s)) => match utf8(s) {
                            Err(e) => Err(e),
                            Ok(error_message) => Ok(
                                ErrPacketView { error_code: code as u16, sql_state, error_message },
                            ),
                        },
                    },
                }
            },
        }
    }

    /// Reads an error packet.
    pub fn decode_with(buf: Bytes, capabilities: Capabilities) -> (r: Result<
        ErrPacket,
        ProtocolError,
    >)
        ensures
            Self::decoded(bytes_of(buf), capabilities) matches Ok(v) ==> (r matches Ok(p) && p@ == v),
            Self::decoded(bytes_of(buf), capabilities) matches Err(e) ==> r == Err::<
                ErrPacket,
                ProtocolError,
            >(e),
    {
        let mut buf = buf;
        let h: u8 = take_header(&mut buf)?;
        if h != 0xff {
            return Err(ProtocolError::NotErrPacket { header: h });
        }
        let error_code: u16 = take_u16(&mut buf)?;
        let rest = as_slice(&buf);
        let mut at: usize = 0;
        let mut sql_state: Option<String> = None;
        if capabilities.contains(PROTOCOL_41) && rest.len() > 0 && rest[0] == 0x23 {
            if rest.len() < 6 {
                return Err(ProtocolError::Truncated { needed: 5, remaining: rest.len() - 1 });
            }
            sql_state = Some(get_str(slice_subrange(rest, 1, 6))?);
            at = 6;
        }
        assert(rest@.skip(at as int) == rest@.subrange(at as int, rest@.len() as int));
        assert(rest@.skip(0) == rest@);
        let error_message: String = get_str(slice_subrange(rest, at, rest.len()))?;
        Ok(ErrPacket { error_code, sql_state, error_message })
    }
}

/// The length-encoded form of a number: the number itself in one byte, or a byte
/// that says how many bytes of it follow.
pub open spec fn lenenc_bytes(n: nat) -> Seq<u8> {
    if n < 0xfb {
        seq![n as u8]
    } else if n < 0x1_0000 {
        seq![0xfcu8] + le_bytes(n, 2)
    } else if n < 0x100_0000 {
        seq![0xfdu8] + le_bytes(n, 3)
    } else {
        seq![0xfeu8] + le_bytes(n, 8)
    }
}

/// A number in a field of `n` bytes is read back as it was written, whatever follows
/// the field; a field that is cut short is reported with what was there of it.
pub proof fn law_field_is_read_back(v: nat, n: nat, rest: Seq<u8>)
    requires
        v < pow(256, n),
    ensures
        uint(le_bytes(v, n) + rest, n) == Ok::<(nat, Seq<u8>), ProtocolError>((v, rest)),
        rest.len() < n ==> uint(rest, n) == Err::<(nat, Seq<u8>), ProtocolError>(
            ProtocolError::Truncated { needed: n as usize, remaining: rest.len() as usize },
        ),
{
    law_le_number_is_read_back(v, n);
    let s = le_bytes(v, n) + rest;
    assert(s.take(n as int) == le_bytes(v, n));
    assert(s.skip(n as int) == rest);
}

/// A length-encoded integer is read back as it was written, whatever follows it.
pub proof fn law_lenenc_is_read_back(n: nat, rest: Seq<u8>)
    requires
        n < 0x1_0000_0000_0000_0000,
    ensures
        uint_lenenc(lenenc_bytes(n) + rest) == Ok::<(nat, Seq<u8>), ProtocolError>((n, rest)),
{
    lemma_pow_256();
    let s = lenenc_bytes(n) + rest;
    if n < 0xfb {
        assert(s.skip(1) == rest);
    } else if n < 0x1_0000 {
        law_field_is_read_back(n, 2, rest);
        assert(s.skip(1) == le_bytes(n, 2) + rest);
    } else if n < 0x100_0000 {
        law_field_is_read_back(n, 3, rest);
        assert(s.skip(1) == le_bytes(n, 3) + rest);
    } else {
        law_field_is_read_back(n, 8, rest);
        assert(s.skip(1) == le_bytes(n, 8) + rest);
    }
}

/// A number below 0xfb takes one byte, a number of two, three or eight bytes stands
/// behind 0xfc, 0xfd or 0xfe; the bytes 0xfb and 0xff stand for themselves.
pub proof fn law_lenenc_byte_for_byte(b: u8, s: Seq<u8>, rest: Seq<u8>)
    ensures
        b < 0xfc || b == 0xff ==> uint_lenenc(seq![b] + rest) == Ok::<
            (nat, Seq<u8>),
            ProtocolError,
        >((b as nat, rest)),
        b == 0xfc && s.len() == 2 || b == 0xfd && s.len() == 3 || b == 0xfe && s.len() == 8
            ==> uint_lenenc(seq![b] + s + rest) == Ok::<(nat, Seq<u8>), ProtocolError>(
            (le_nat(s), rest),
        ),
{
    assert((seq![b] + rest).skip(1) == rest);
    let all = seq![b] + s + rest;
    assert(all.skip(1) == s + rest);
    assert((s + rest).take(s.len() as int) == s);
    assert((s + rest).skip(s.len() as int) == rest);
}

/// A length-encoded integer that is cut short is reported: an empty buffer lacks the
/// first byte, and what follows 0xfc, 0xfd or 0xfe lacks two, three or eight bytes.
pub proof fn law_lenenc_is_not_cut_short(b: u8, s: Seq<u8>)
    ensures
        uint_lenenc(Seq::empty()) == Err::<(nat, Seq<u8>), ProtocolError>(
            ProtocolError::Truncated { needed: 1, remaining: 0 },
        ),
        b == 0xfc && s.len() < 2 ==> uint_lenenc(seq![b] + s) == Err::<
            (nat, Seq<u8>),
            ProtocolError,
        >(ProtocolError::Truncated { needed: 2, remaining: s.len() as usize }),
        b == 0xfd && s.len() < 3 ==> uint_lenenc(seq![b] + s) == Err::<
            (nat, Seq<u8>),
            ProtocolError,
        >(ProtocolError::Truncated { needed: 3, remaining: s.len() as usize }),
        b == 0xfe && s.len() < 8 ==> uint_lenenc(seq![b] + s) == Err::<
            (nat, Seq<u8>),
            ProtocolError,
        >(ProtocolError::Truncated { needed: 8, remaining: s.len() as usize }),
{
    assert((seq![b] + s).skip(1) == s);
}

impl OkPacket {
    /// The bytes of an OK packet behind the given header byte.
    pub open spec fn wire(self, header: u8) -> Seq<u8> {
        seq![header] + lenenc_bytes(self.affected_rows as nat) + lenenc_bytes(
            self.last_insert_id as nat,
        ) + le_bytes(self.status.bits as nat, 2) + le_bytes(self.warnings as nat, 2)
    }
}

/// An OK packet is read back as it was written, with either header, whatever the
/// capabilities and whatever follows it.
pub proof fn law_ok_packet_is_read_back(
    header: u8,
    packet: OkPacket,
    rest: Seq<u8>,
    capabilities: Capabilities,
)
    requires
        header == 0x00 || header == 0xfe,
    ensures
        OkPacket::content(packet.wire(header) + rest) == Ok::<OkPacket, ProtocolError>(packet),
        OkPacket::decoded(packet.wire(header) + rest, capabilities) == Ok::<
            OkPacket,
            ProtocolError,
        >(packet),
{
    lemma_pow_256();
    let warnings = le_bytes(packet.warnings as nat, 2) + rest;
    let status = le_bytes(packet.status.bits as nat, 2) + warnings;
    let last_insert_id = lenenc_bytes(packet.last_insert_id as nat) + status;
    let affected_rows = lenenc_bytes(packet.affected_rows as nat) + last_insert_id;
    assert((packet.wire(header) + rest).skip(1) == affected_rows);
    law_lenenc_is_read_back(packet.affected_rows as nat, last_insert_id);
    law_lenenc_is_read_back(packet.last_insert_id as nat, status);
    law_field_is_read_back(packet.status.bits as nat, 2, warnings);
    law_field_is_read_back(packet.warnings as nat, 2, rest);
}

/// An OK packet is refused when it is empty, when its header is neither 0x00 nor
/// 0xfe, and when its numbers end before the four bytes of status and warnings;
/// nothing else is refused.
pub proof fn law_ok_packet_is_refused(
    header: u8,
    s: Seq<u8>,
    affected_rows: nat,
    t: Seq<u8>,
    last_insert_id: nat,
    u: Seq<u8>,
)
    ensures
        OkPacket::content(Seq::empty()) == Err::<OkPacket, ProtocolError>(
            ProtocolError::Truncated { needed: 1, remaining: 0 },
        ),
        header != 0x00 && header != 0xfe ==> OkPacket::content(seq![header] + s) == Err::<
            OkPacket,
            ProtocolError,
        >(ProtocolError::NotOkPacket { header }),
        header == 0x00 || header == 0xfe ==> {
            &&& uint_lenenc(s) matches Err(e) ==> OkPacket::content(seq![header] + s) == Err::<
                OkPacket,
                ProtocolError,
            >(e)
            &&& uint_lenenc(s) == Ok::<(nat, Seq<u8>), ProtocolError>((affected_rows, t)) ==> {
                &&& uint_lenenc(t) matches Err(e) ==> OkPacket::content(seq![header] + s) == Err::<
                    OkPacket,
                    ProtocolError,
                >(e)
                &&& uint_lenenc(t) == Ok::<(nat, Seq<u8>), ProtocolError>((last_insert_id, u)) ==> {
                    &&& u.len() < 2 ==> OkPacket::content(seq![header] + s) == Err::<
                        OkPacket,
                        ProtocolError,
                    >(ProtocolError::Truncated { needed: 2, remaining: u.len() as usize })
                    &&& 2 <= u.len() < 4 ==> OkPacket::content(seq![header] + s) == Err::<
                        OkPacket,
                        ProtocolError,
                    >(ProtocolError::Truncated { needed: 2, remaining: (u.len() - 2) as usize })
                    &&& u.len() >= 4 ==> (OkPacket::content(seq![header] + s) matches Ok(packet)
                        && packet.affected_rows == affected_rows && packet.last_insert_id
                        == last_insert_id && packet.status.bits == u[0] + 256 * u[1]
                        && packet.warnings == u[2] + 256 * u[3])
                }
            }
        },
{
    assert((seq![header] + s).skip(1) == s);
    lemma_uint_lenenc_bound(s);
    lemma_uint_lenenc_bound(t);
    if u.len() >= 4 {
        lemma_le_nat_2(u.take(2));
        lemma_le_nat_2(u.skip(2).take(2));
    }
}

impl EofPacket {
    /// The bytes of an EOF packet.
    pub open spec fn wire(self) -> Seq<u8> {
        seq![0xfeu8] + le_bytes(self.warnings as nat, 2) + le_bytes(self.status.bits as nat, 2)
    }
}

/// An EOF packet is read back as it was written, whatever the capabilities and
/// whatever follows it.
pub proof fn law_eof_packet_is_read_back(
    packet: EofPacket,
    rest: Seq<u8>,
    capabilities: Capabilities,
)
    ensures
        EofPacket::content(packet.wire() + rest) == Ok::<EofPacket, ProtocolError>(packet),
        EofPacket::decoded(packet.wire() + rest, capabilities) == Ok::<EofPacket, ProtocolError>(
            packet,
        ),
{
    lemma_pow_256();
    let status = le_bytes(packet.status.bits as nat, 2) + rest;
    let warnings = le_bytes(packet.warnings as nat, 2) + status;
    assert((packet.wire() + rest).skip(1) == warnings);
    law_field_is_read_back(packet.warnings as nat, 2, status);
    law_field_is_read_back(packet.status.bits as nat, 2, rest);
}

/// Behind the header 0xfe, an EOF packet holds the warnings in two bytes and the
/// status in two bytes; one that is empty, shorter or has another header is refused.
pub proof fn law_eof_packet_byte_for_byte(header: u8, s: Seq<u8>)
    ensures
        EofPacket::content(Seq::empty()) == Err::<EofPacket, ProtocolError>(
            ProtocolError::Truncated { needed: 1, remaining: 0 },
        ),
        header != 0xfe ==> EofPacket::content(seq![header] + s) == Err::<EofPacket, ProtocolError>(
            ProtocolError::NotEofPacket { header },
        ),
        header == 0xfe && s.len() < 2 ==> EofPacket::content(seq![header] + s) == Err::<
            EofPacket,
            ProtocolError,
        >(ProtocolError::Truncated { needed: 2, remaining: s.len() as usize }),
        header == 0xfe && 2 <= s.len() < 4 ==> EofPacket::content(seq![header] + s) == Err::<
            EofPacket,
            ProtocolError,
        >(ProtocolError::Truncated { needed: 2, remaining: (s.len() - 2) as usize }),
        header == 0xfe && s.len() >= 4 ==> (EofPacket::content(seq![header] + s) matches Ok(packet)
            && packet.warnings == s[0] + 256 * s[1] && packet.status.bits == s[2] + 256 * s[3]),
{
    assert((seq![header] + s).skip(1) == s);
    if s.len() >= 4 {
        lemma_le_nat_2(s.take(2));
        lemma_le_nat_2(s.skip(2).take(2));
    }
}

/// What OK and EOF packets say does not depend on the capabilities.
pub proof fn law_ok_and_eof_packets_need_no_capabilities(s: Seq<u8>, capabilities: Capabilities)
    ensures
        OkPacket::decoded(s, capabilities) == OkPacket::content(s),
        EofPacket::decoded(s, capabilities) == EofPacket::content(s),
{
}

/// Neither an OK nor an EOF packet comes late: the packet that is there is the
/// response.
pub proof fn law_ok_and_eof_packets_come_at_once()
    ensures
        !OkPacket::comes_late(),
        !EofPacket::comes_late(),
{
}

/// Where bit 24 of the capabilities deprecates EOF packets, a result set ends with an
/// OK packet, of which the warnings and the status are kept; else it ends with an EOF
/// packet.
pub proof fn law_end_of_rows_follows_the_capabilities(
    ok: OkPacket,
    header: u8,
    eof: EofPacket,
    s: Seq<u8>,
    capabilities: Capabilities,
)
    ensures
        (capabilities.bits >> 24) & 1 == 1 ==> {
            &&& header == 0x00 || header == 0xfe ==> end_of_rows(
                ok.wire(header) + s,
                capabilities,
            ) == Ok::<EofPacket, ProtocolError>(
                EofPacket { warnings: ok.warnings, status: ok.status },
            )
            &&& OkPacket::content(s) matches Ok(p) ==> end_of_rows(s, capabilities) == Ok::<
                EofPacket,
                ProtocolError,
            >(EofPacket { warnings: p.warnings, status: p.status })
            &&& OkPacket::content(s) matches Err(e) ==> end_of_rows(s, capabilities) == Err::<
                EofPacket,
                ProtocolError,
            >(e)
        },
        (capabilities.bits >> 24) & 1 == 0 ==> {
            &&& end_of_rows(eof.wire() + s, capabilities) == Ok::<EofPacket, ProtocolError>(eof)
            &&& end_of_rows(s, capabilities) == EofPacket::content(s)
        },
{
    law_capabilities_are_bits(capabilities);
    if header == 0x00 || header == 0xfe {
        law_ok_packet_is_read_back(header, ok, s, capabilities);
    }
    law_eof_packet_is_read_back(eof, s, capabilities);
}

impl ErrPacketView {
    /// The bytes of an error packet: 0xff, the code, a `#` and the SQL state where
    /// there is one, and the message.
    pub open spec fn wire(self) -> Seq<u8> {
        seq![0xffu8] + le_bytes(self.error_code as nat, 2) + (match self.sql_state {
            Some(state) => seq![0x23u8] + encode_utf8(state),
            None => Seq::empty(),
        }) + encode_utf8(self.error_message)
    }
}

/// The byte of `#` begins the encoding of a text only where `#` begins the text.
proof fn lemma_hash_begins_only_itself(text: Seq<char>)
    requires
        encode_utf8(text).len() > 0,
        encode_utf8(text)[0] == 0x23,
    ensures
        text.len() > 0,
        text[0] == '#',
{
    encode_utf8_first_scalar(text);
    assert(0x23u8 & 0x7f == 0x23) by (bit_vector);
    char_u32_cast(text[0], 0x23);
    char_u32_cast('#', 0x23);
}

/// The fields of an error packet whose state and message are UTF-8.
proof fn lemma_error_fields(
    error_code: u16,
    state: Seq<u8>,
    message: Seq<u8>,
    capabilities: Capabilities,
)
    requires
        state.len() == 5,
        valid_utf8(state),
        valid_utf8(message),
        (capabilities.bits >> 9) & 1 == 1,
    ensures
        ErrPacket::decoded(
            seq![0xffu8] + le_bytes(error_code as nat, 2) + seq![0x23u8] + state + message,
            capabilities,
        ) == Ok::<ErrPacketView, ProtocolError>(
            ErrPacketView {
                error_code,
                sql_state: Some(decode_utf8(state)),
                error_message: decode_utf8(message),
            },
        ),
{
    law_capabilities_are_bits(capabilities);
    lemma_pow_256();
    let tail = seq![0x23u8] + state + message;
    law_field_is_read_back(error_code as nat, 2, tail);
    let s = seq![0xffu8] + le_bytes(error_code as nat, 2) + seq![0x23u8] + state + message;
    assert(s.skip(1) =~= le_bytes(error_code as nat, 2) + tail);
    assert(tail.subrange(1, 6) =~= state);
    assert(tail.skip(6) =~= message);
}

/// An error packet with an SQL state is read back as it was written, where bit 9 of
/// the capabilities is set: any code, any state of five ASCII characters, and the
/// whole of any message.
pub proof fn law_error_with_state_is_read_back(
    error_code: u16,
    state: Seq<char>,
    error_message: Seq<char>,
    capabilities: Capabilities,
)
    requires
        is_ascii_chars(state),
        state.len() == 5,
        (capabilities.bits >> 9) & 1 == 1,
    ensures
        ErrPacket::decoded(
            seq![0xffu8] + le_bytes(error_code as nat, 2) + seq![0x23u8] + encode_utf8(state)
                + encode_utf8(error_message),
            capabilities,
        ) == Ok::<ErrPacketView, ProtocolError>(
            ErrPacketView { error_code, sql_state: Some(state), error_message },
        ),
        ({
            let packet = ErrPacketView { error_code, sql_state: Some(state), error_message };
            ErrPacket::decoded(packet.wire(), capabilities) == Ok::<ErrPacketView, ProtocolError>(
                packet,
            )
        }),
{
    is_ascii_chars_encode_utf8(state);
    encode_utf8_valid_utf8(state);
    encode_utf8_decode_utf8(state);
    encode_utf8_valid_utf8(error_message);
    encode_utf8_decode_utf8(error_message);
    let packet = ErrPacketView { error_code, sql_state: Some(state), error_message };
    let s = seq![0xffu8] + le_bytes(error_code as nat, 2) + seq![0x23u8] + encode_utf8(state)
        + encode_utf8(error_message);
    lemma_error_fields(error_code, encode_utf8(state), encode_utf8(error_message), capabilities);
    assert(packet.wire() =~= s);
}

/// An error packet without an SQL state is read back as it was written: its message
/// is all that follows the code. Where bit 9 of the capabilities is set the message
/// must not begin with `#`, which would announce a state.
pub proof fn law_error_without_state_is_read_back(
    error_code: u16,
    error_message: Seq<char>,
    capabilities: Capabilities,
)
    requires
        (capabilities.bits >> 9) & 1 == 0 || error_message.len() == 0 || error_message[0] != '#',
    ensures
        ErrPacket::decoded(
            seq![0xffu8] + le_bytes(error_code as nat, 2) + encode_utf8(error_message),
            capabilities,
        ) == Ok::<ErrPacketView, ProtocolError>(
            ErrPacketView { error_code, sql_state: None, error_message },
        ),
        ({
            let packet = ErrPacketView { error_code, sql_state: None, error_message };
            ErrPacket::decoded(packet.wire(), capabilities) == Ok::<ErrPacketView, ProtocolError>(
                packet,
            )
        }),
{
    law_capabilities_are_bits(capabilities);
    lemma_pow_256();
    encode_utf8_valid_utf8(error_message);
    encode_utf8_decode_utf8(error_message);
    let tail = encode_utf8(error_message);
    if tail.len() > 0 && tail[0] == 0x23 {
        lemma_hash_begins_only_itself(error_message);
    }
    law_field_is_read_back(error_code as nat, 2, tail);
    let s = seq![0xffu8] + le_bytes(error_code as nat, 2) + tail;
    assert(s.skip(1) == le_bytes(error_code as nat, 2) + tail);
    let packet = ErrPacketView { error_code, sql_state: None, error_message };
    assert(packet.wire() == s);
}

/// Behind the header 0xff, an error packet holds its code in two bytes, then, where
/// bit 9 of the capabilities is set and a `#` follows, a state of five bytes, then the
/// message to its end. One that is empty, has another header, ends within the code or
/// the state, or holds text that is not UTF-8 is refused.
pub proof fn law_error_packet_byte_for_byte(header: u8, s: Seq<u8>, capabilities: Capabilities)
    ensures
        ErrPacket::decoded(Seq::empty(), capabilities) == Err::<ErrPacketView, ProtocolError>(
            ProtocolError::Truncated { needed: 1, remaining: 0 },
        ),
        header != 0xff ==> ErrPacket::decoded(seq![header] + s, capabilities) == Err::<
            ErrPacketView,
            ProtocolError,
        >(ProtocolError::NotErrPacket { header }),
        header == 0xff && s.len() < 2 ==> ErrPacket::decoded(seq![header] + s, capabilities)
            == Err::<ErrPacketView, ProtocolError>(
            ProtocolError::Truncated { needed: 2, remaining: s.len() as usize },
        ),
        header == 0xff && s.len() >= 2 ==> {
            let code = s[0] + 256 * s[1];
            let r = ErrPacket::decoded(seq![header] + s, capabilities);
            if (capabilities.bits >> 9) & 1 == 1 && s.len() > 2 && s[2] == 0x23 {
                if s.len() < 8 {
                    r == Err::<ErrPacketView, ProtocolError>(
                        ProtocolError::Truncated { needed: 5, remaining: (s.len() - 3) as usize },
                    )
                } else if valid_utf8(s.subrange(3, 8)) && valid_utf8(s.skip(8)) {
                    r matches Ok(p) && p.error_code == code && p.sql_state == Some(
                        decode_utf8(s.subrange(3, 8)),
                    ) && p.error_message == decode_utf8(s.skip(8))
                } else {
                    r == Err::<ErrPacketView, ProtocolError>(ProtocolError::InvalidUtf8)
                }
            } else if valid_utf8(s.skip(2)) {
                r matches Ok(p) && p.error_code == code && p.sql_state is None && p.error_message
                    == decode_utf8(s.skip(2))
            } else {
                r == Err::<ErrPacketView, ProtocolError>(ProtocolError::InvalidUtf8)
            }
        },
{
    law_capabilities_are_bits(capabilities);
    assert((seq![header] + s).skip(1) == s);
    if s.len() >= 2 {
        lemma_le_nat_2(s.take(2));
        let t = s.skip(2);
        if t.len() >= 6 {
            assert(t.subrange(1, 6) == s.subrange(3, 8));
            assert(t.skip(6) == s.skip(8));
        }
    }
}

} // verus!
