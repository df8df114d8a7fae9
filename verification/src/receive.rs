//! Awaiting a response that unreadable packets may come ahead of.
use crate::capabilities::Capabilities;
use crate::error::ProtocolError;
use crate::packet::{
    law_eof_packet_is_read_back, law_ok_and_eof_packets_come_at_once, law_ok_packet_is_read_back,
    EofPacket, OkPacket, ProtocolDecode,
};
use crate::prepare_ok::{law_prepare_ok_comes_late, law_prepare_ok_is_readable, PrepareOk};
use vstd::prelude::*;

verus! {

/// How often packets were passed over while a response is awaited.
#[derive(Debug, Clone, Copy, PartialEq, Eq, Structural)]
pub struct Receiving {
    pub skipped: u32,
}

/// The safety limit: so many packets are passed over for one response, and the next
/// packet that is not the response is an error.
pub const MAX_SKIPPED: u32 = 10;

/// Whether a packet is one of those that some servers send ahead of a prepare
/// response: seven bytes, the first of them zero.
pub open spec fn is_placeholder(s: Seq<u8>) -> bool {
    s.len() == 7 && s[0] == 0
}

/// A packet for a response that may come late: the response where the packet is no
/// placeholder and can be read, else nothing, for the packet is passed over, or an
/// error once [`MAX_SKIPPED`] packets were.
pub open spec fn late_step<T: ProtocolDecode>(
    skipped: nat,
    capabilities: Capabilities,
    s: Seq<u8>,
) -> Result<Option<T>, ProtocolError> {
    if !is_placeholder(s) && T::decoded(s, capabilities) is Ok {
        Ok(Some(T::decoded(s, capabilities)->Ok_0))
    } else if skipped >= MAX_SKIPPED {
        Err(ProtocolError::TooManyInvalidPackets { skipped: skipped as u32 })
    } else {
        Ok(None)
    }
}

/// A packet for a response: the response, or nothing where the packet is passed
/// over.
pub open spec fn recv_step<T: ProtocolDecode>(
    skipped: nat,
    capabilities: Capabilities,
    s: Seq<u8>,
) -> Result<Option<T>, ProtocolError> {
    if T::comes_late() {
        late_step(skipped, capabilities, s)
    } else {
        match T::decoded(s, capabilities) {
            Ok(t) => Ok(Some(t)),
            Err(e) => Err(e),
        }
    }
}

/// Receives packets for a response, of which `skipped` were passed over before,
/// until one of them is the response or an error. Nothing where they all are
/// passed over.
pub open spec fn recv_run<T: ProtocolDecode>(
    skipped: nat,
    capabilities: Capabilities,
    packets: Seq<Seq<u8>>,
) -> Result<Option<T>, ProtocolError>
    decreases packets.len(),
{
    if packets.len() == 0 {
        Ok(None)
    } else {
        match recv_step::<T>(skipped, capabilities, packets[0]) {
            Ok(None) => recv_run(skipped + 1, capabilities, packets.skip(1)),
            other => other,
        }
    }
}

/// Whether a packet is passed over when `skipped` packets were before it.
pub open spec fn passed_over<T: ProtocolDecode>(
    skipped: nat,
    capabilities: Capabilities,
    s: Seq<u8>,
) -> bool {
    (is_placeholder(s) || T::decoded(s, capabilities) is Err) && skipped < MAX_SKIPPED
}

/// A placeholder holds no prepare response, so that none is lost with it.
pub proof fn law_placeholder_is_no_response(s: Seq<u8>, capabilities: Capabilities)
    requires
        is_placeholder(s),
    ensures
        PrepareOk::decoded(s, capabilities) is Err,
{
    law_prepare_ok_is_readable(s, capabilities);
}

/// Packets that are passed over do nothing but count.
pub proof fn law_passed_over_packets_count<T: ProtocolDecode>(
    skipped: nat,
    capabilities: Capabilities,
    packets: Seq<Seq<u8>>,
    rest: Seq<Seq<u8>>,
)
    requires
        T::comes_late(),
        forall|i: int|
            0 <= i < packets.len() ==> passed_over::<T>(
                (skipped + i) as nat,
                capabilities,
                #[trigger] packets[i],
            ),
    ensures
        recv_run::<T>(skipped, capabilities, packets + rest) == recv_run::<T>(
            skipped + packets.len(),
            capabilities,
            rest,
        ),
    decreases packets.len(),
{
    if packets.len() == 0 {
        assert(packets + rest == rest);
    } else {
        assert((packets + rest)[0] == packets[0]);
        assert(passed_over::<T>((skipped + 0) as nat, capabilities, packets[0]));
        assert((packets + rest).skip(1) == packets.skip(1) + rest);
        assert forall|i: int| 0 <= i < packets.skip(1).len() implies passed_over::<T>(
            (skipped + 1 + i) as nat,
            capabilities,
            #[trigger] packets.skip(1)[i],
        ) by {
            assert(packets.skip(1)[i] == packets[i + 1]);
        }
        law_passed_over_packets_count::<T>(skipped + 1, capabilities, packets.skip(1), rest);
    }
}

/// A readable response is received behind as many placeholders as the safety limit
/// allows, and the packets behind it are not looked at.
pub proof fn law_placeholders_do_not_hide_the_response(
    capabilities: Capabilities,
    placeholders: Seq<Seq<u8>>,
    response: Seq<u8>,
    rest: Seq<Seq<u8>>,
)
    requires
        placeholders.len() <= MAX_SKIPPED,
        forall|i: int| 0 <= i < placeholders.len() ==> is_placeholder(#[trigger] placeholders[i]),
        PrepareOk::decoded(response, capabilities) is Ok,
    ensures
        recv_run::<PrepareOk>(0, capabilities, placeholders + seq![response] + rest) == Ok::<
            Option<PrepareOk>,
            ProtocolError,
        >(Some(PrepareOk::decoded(response, capabilities)->Ok_0)),
{
    law_response_is_received(0, capabilities, placeholders, response, rest);
}

/// The first readable packet behind packets that are passed over is the response.
pub proof fn law_response_is_received(
    skipped: nat,
    capabilities: Capabilities,
    packets: Seq<Seq<u8>>,
    response: Seq<u8>,
    rest: Seq<Seq<u8>>,
)
    requires
        forall|i: int|
            0 <= i < packets.len() ==> passed_over::<PrepareOk>(
                (skipped + i) as nat,
                capabilities,
                #[trigger] packets[i],
            ),
        PrepareOk::decoded(response, capabilities) is Ok,
    ensures
        recv_run::<PrepareOk>(skipped, capabilities, packets + seq![response] + rest) == Ok::<
            Option<PrepareOk>,
            ProtocolError,
        >(Some(PrepareOk::decoded(response, capabilities)->Ok_0)),
{
    law_prepare_ok_is_readable(response, capabilities);
    let tail = seq![response] + rest;
    assert(packets + seq![response] + rest == packets + tail);
    law_passed_over_packets_count::<PrepareOk>(skipped, capabilities, packets, tail);
    assert(tail[0] == response);
}

/// The wait for a response that may come late is bounded: whatever the packets hold,
/// it has ended, with the response or with an error, once more packets arrived than
/// may be passed over.
pub proof fn law_wait_is_bounded<T: ProtocolDecode>(
    skipped: nat,
    capabilities: Capabilities,
    packets: Seq<Seq<u8>>,
)
    requires
        T::comes_late(),
        packets.len() > 0,
        skipped + packets.len() > MAX_SKIPPED,
    ensures
        recv_run::<T>(skipped, capabilities, packets) != Ok::<Option<T>, ProtocolError>(None),
    decreases packets.len(),
{
    if recv_step::<T>(skipped, capabilities, packets[0]) == Ok::<Option<T>, ProtocolError>(None) {
        law_wait_is_bounded::<T>(skipped + 1, capabilities, packets.skip(1));
    }
}

/// The packet behind the last that may be passed over is an error where it is a
/// placeholder or cannot be read, and the error counts the packets ahead of it.
pub proof fn law_limit_is_reported<T: ProtocolDecode>(
    capabilities: Capabilities,
    packets: Seq<Seq<u8>>,
    last: Seq<u8>,
    rest: Seq<Seq<u8>>,
)
    requires
        T::comes_late(),
        packets.len() == MAX_SKIPPED,
        forall|i: int|
            0 <= i < packets.len() ==> passed_over::<T>(
                i as nat,
                capabilities,
                #[trigger] packets[i],
            ),
        is_placeholder(last) || T::decoded(last, capabilities) is Err,
    ensures
        recv_run::<T>(0, capabilities, packets + seq![last] + rest) == Err::<
            Option<T>,
            ProtocolError,
        >(ProtocolError::TooManyInvalidPackets { skipped: MAX_SKIPPED }),
{
    let tail = seq![last] + rest;
    assert(packets + seq![last] + rest == packets + tail);
    law_passed_over_packets_count::<T>(0, capabilities, packets, tail);
    assert(tail[0] == last);
}

/// For every response that does not come late, the first packet decides.
pub proof fn law_first_packet_decides<T: ProtocolDecode>(
    skipped: nat,
    capabilities: Capabilities,
    packet: Seq<u8>,
    rest: Seq<Seq<u8>>,
)
    requires
        !T::comes_late(),
    ensures
        recv_run::<T>(skipped, capabilities, seq![packet] + rest) == (match T::decoded(
            packet,
            capabilities,
        ) {
            Ok(t) => Ok::<Option<T>, ProtocolError>(Some(t)),
            Err(e) => Err(e),
        }),
{
}

/// The first packet is the answer where an OK or an EOF packet is awaited: what it
/// holds is received, and what cannot be read is an error, whatever was passed over
/// before and whatever follows.
pub proof fn law_ok_and_eof_packets_are_not_awaited_twice(
    skipped: nat,
    capabilities: Capabilities,
    packet: Seq<u8>,
    rest: Seq<Seq<u8>>,
)
    ensures
        recv_run::<OkPacket>(skipped, capabilities, seq![packet] + rest)
            == match OkPacket::decoded(packet, capabilities) {
            Ok(ok) => Ok::<Option<OkPacket>, ProtocolError>(Some(ok)),
            Err(e) => Err(e),
        },
        recv_run::<EofPacket>(skipped, capabilities, seq![packet] + rest)
            == match EofPacket::decoded(packet, capabilities) {
            Ok(eof) => Ok::<Option<EofPacket>, ProtocolError>(Some(eof)),
            Err(e) => Err(e),
        },
        recv_step::<OkPacket>(skipped, capabilities, packet) == recv_run::<OkPacket>(
            skipped,
            capabilities,
            seq![packet] + rest,
        ),
        recv_step::<EofPacket>(skipped, capabilities, packet) == recv_run::<EofPacket>(
            skipped,
            capabilities,
            seq![packet] + rest,
        ),
{
    law_ok_and_eof_packets_come_at_once();
    law_first_packet_decides::<OkPacket>(skipped, capabilities, packet, rest);
    law_first_packet_decides::<EofPacket>(skipped, capabilities, packet, rest);
}

/// An OK packet and an EOF packet are received as they were written.
pub proof fn law_written_ok_and_eof_packets_are_received(
    skipped: nat,
    capabilities: Capabilities,
    header: u8,
    ok: OkPacket,
    eof: EofPacket,
    behind: Seq<u8>,
    rest: Seq<Seq<u8>>,
)
    requires
        header == 0x00 || header == 0xfe,
    ensures
        recv_run::<OkPacket>(skipped, capabilities, seq![ok.wire(header) + behind] + rest) == Ok::<
            Option<OkPacket>,
            ProtocolError,
        >(Some(ok)),
        recv_run::<EofPacket>(skipped, capabilities, seq![eof.wire() + behind] + rest) == Ok::<
            Option<EofPacket>,
            ProtocolError,
        >(Some(eof)),
{
    law_ok_packet_is_read_back(header, ok, behind, capabilities);
    law_eof_packet_is_read_back(eof, behind, capabilities);
    law_ok_and_eof_packets_are_not_awaited_twice(
        skipped,
        capabilities,
        ok.wire(header) + behind,
        rest,
    );
    law_ok_and_eof_packets_are_not_awaited_twice(
        skipped,
        capabilities,
        eof.wire() + behind,
        rest,
    );
}

/// While a prepare response is awaited, a packet that opens with zero and has five
/// bytes or more, but not seven, is the response. Any other packet is passed over as
/// long as fewer than ten were, and is an error after that, which counts those that
/// were passed over.
pub proof fn law_prepare_response_is_told_apart(
    skipped: nat,
    capabilities: Capabilities,
    s: Seq<u8>,
)
    ensures
        s.len() >= 5 && s.len() != 7 && s[0] == 0 ==> PrepareOk::decoded(s, capabilities) is Ok
            && recv_step::<PrepareOk>(skipped, capabilities, s) == Ok::<
            Option<PrepareOk>,
            ProtocolError,
        >(Some(PrepareOk::decoded(s, capabilities)->Ok_0)),
        s.len() < 5 || s.len() == 7 || s[0] != 0 ==> recv_step::<PrepareOk>(
            skipped,
            capabilities,
            s,
        ) == (if skipped < 10 {
            Ok::<Option<PrepareOk>, ProtocolError>(None)
        } else {
            Err(ProtocolError::TooManyInvalidPackets { skipped: skipped as u32 })
        }),
{
    law_prepare_ok_is_readable(s, capabilities);
    law_prepare_ok_comes_late();
}

/// Packets are taken one by one: one that is passed over counts, and the next decides
/// in its place; without packets nothing is received.
pub proof fn law_packets_are_received_in_turn<T: ProtocolDecode>(
    skipped: nat,
    capabilities: Capabilities,
    packet: Seq<u8>,
    rest: Seq<Seq<u8>>,
)
    ensures
        recv_run::<T>(skipped, capabilities, Seq::empty()) == Ok::<Option<T>, ProtocolError>(None),
        recv_step::<T>(skipped, capabilities, packet) == Ok::<Option<T>, ProtocolError>(None)
            ==> recv_run::<T>(skipped, capabilities, seq![packet] + rest) == recv_run::<T>(
            skipped + 1,
            capabilities,
            rest,
        ),
        recv_step::<T>(skipped, capabilities, packet) != Ok::<Option<T>, ProtocolError>(None)
            ==> recv_run::<T>(skipped, capabilities, seq![packet] + rest) == recv_step::<T>(
            skipped,
            capabilities,
            packet,
        ),
{
    assert((seq![packet] + rest)[0] == packet);
    assert((seq![packet] + rest).skip(1) =~= rest);
}

/// A placeholder has seven bytes, the first of them zero.
pub proof fn law_placeholder_byte_for_byte(s: Seq<u8>)
    ensures
        is_placeholder(s) <==> s.len() == 7 && s[0] == 0x00,
{
}

/// A response that comes late is the first packet that is no placeholder and can be
/// read; one that comes ahead of it is passed over as long as fewer than ten were.
pub proof fn law_late_response_is_told_apart<T: ProtocolDecode>(
    skipped: nat,
    capabilities: Capabilities,
    s: Seq<u8>,
)
    requires
        T::comes_late(),
    ensures
        (s.len() != 7 || s[0] != 0) ==> (T::decoded(s, capabilities) matches Ok(t) ==> recv_step::<
            T,
        >(skipped, capabilities, s) == Ok::<Option<T>, ProtocolError>(Some(t))),
        s.len() == 7 && s[0] == 0 || T::decoded(s, capabilities) is Err ==> recv_step::<T>(
            skipped,
            capabilities,
            s,
        ) == (if skipped < 10 {
            Ok::<Option<T>, ProtocolError>(None)
        } else {
            Err(ProtocolError::TooManyInvalidPackets { skipped: skipped as u32 })
        }),
{
}

} // verus!
