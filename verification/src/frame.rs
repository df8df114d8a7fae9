//! Framing: a payload travels as one or more packets, each behind a header of four
//! bytes.
use crate::buf::{le_nat, lemma_le_nat_3, lemma_u24_bytes, u24_bytes};
use vstd::prelude::*;
use vstd::slice::*;

verus! {

/// The longest payload of one packet. A payload that is not shorter goes on in the
/// next packet.
pub const MAX_PAYLOAD: usize = 0xff_ffff;

/// The sequence id after `id`. It wraps.
pub open spec fn next_id(id: u8) -> u8 {
    ((id + 1) % 256) as u8
}

/// One packet on the wire: the payload's length in three bytes, the sequence id,
/// the payload.
pub open spec fn frame(payload: Seq<u8>, id: u8) -> Seq<u8> {
    u24_bytes(payload.len()).push(id) + payload
}

/// A payload on the wire: packets of the greatest length while there is enough
/// for one, then a shorter packet, which may be empty. The first packet has the
/// sequence id `id` and each one after it the next.
pub open spec fn frames(payload: Seq<u8>, id: u8) -> Seq<u8>
    decreases payload.len(),
{
    if payload.len() < MAX_PAYLOAD {
        frame(payload, id)
    } else {
        frame(payload.take(MAX_PAYLOAD as int), id) + frames(
            payload.skip(MAX_PAYLOAD as int),
            next_id(id),
        )
    }
}

/// The sequence id that is next once a payload of `len` bytes was framed from `id`.
pub open spec fn id_after(len: nat, id: u8) -> u8 {
    ((id + len / MAX_PAYLOAD as nat + 1) % 256) as u8
}

fn push_frame(out: &mut Vec<u8>, payload: &[u8], id: u8)
    requires
        payload@.len() <= MAX_PAYLOAD,
    ensures
        final(out)@ == old(out)@ + frame(payload@, id),
{
    let len: usize = payload.len();
    out.push((len % 256) as u8);
    out.push((len / 256 % 256) as u8);
    out.push((len / 65536 % 256) as u8);
    out.push(id);
    out.extend_from_slice(payload);
}

/// Appends a framed payload to `out`. Returns the sequence id that is next.
#[verifier::spinoff_prover]
pub fn write_frames(out: &mut Vec<u8>, payload: &[u8], id: u8) -> (r: u8)
    ensures
        final(out)@ == old(out)@ + frames(payload@, id),
        r == id_after(payload@.len(), id),
{
    let ghost before = out@;
    let mut at: usize = 0;
    let mut id_now: u8 = id;
    assert(payload@.skip(0) == payload@);
    while payload.len() - at >= MAX_PAYLOAD
        invariant
            at <= payload@.len(),
            out@ + frames(payload@.skip(at as int), id_now) == before + frames(payload@, id),
            id_after((payload@.len() - at) as nat, id_now) == id_after(payload@.len(), id),
        decreases payload@.len() - at,
    {
        let part = slice_subrange(payload, at, at + MAX_PAYLOAD);
        let ghost rest = payload@.skip(at as int);
        assert(part@ == rest.take(MAX_PAYLOAD as int));
        assert(rest.skip(MAX_PAYLOAD as int) == payload@.skip(at + MAX_PAYLOAD));
        let ghost out_then = out@;
        push_frame(out, part, id_now);
        assert(out@ + frames(rest.skip(MAX_PAYLOAD as int), next_id(id_now)) =~= out_then + frames(
            rest,
            id_now,
        ));
        proof {
            law_sequence_ids_count_packets((rest.len() - MAX_PAYLOAD) as nat, id_now);
        }
        at += MAX_PAYLOAD;
        id_now = id_now.wrapping_add(1);
    }
    let part = slice_subrange(payload, at, payload.len());
    assert(part@ == payload@.skip(at as int));
    push_frame(out, part, id_now);
    id_now.wrapping_add(1)
}

/// Reads packets off the wire up to and including one that is shorter than the
/// longest, and joins their payloads. Returns that, and what follows on the wire.
pub open spec fn joined(wire: Seq<u8>) -> Option<(Seq<u8>, Seq<u8>)>
    decreases wire.len(),
{
    if wire.len() < 4 {
        None
    } else {
        let size = le_nat(wire.take(3)) as int;
        if wire.len() < 4 + size {
            None
        } else {
            let payload = wire.subrange(4, 4 + size);
            let rest = wire.skip(4 + size);
            if size < MAX_PAYLOAD {
                Some((payload, rest))
            } else {
                match joined(rest) {
                    Some((more, rest)) => Some((payload + more, rest)),
                    None => None,
                }
            }
        }
    }
}

/// The four bytes ahead of a packet say how long its payload is and which sequence
/// id it has, and the payload follows them.
pub proof fn law_frame_is_read_back(payload: Seq<u8>, id: u8, rest: Seq<u8>)
    requires
        payload.len() <= MAX_PAYLOAD,
    ensures
        le_nat((frame(payload, id) + rest).take(3)) == payload.len(),
        (frame(payload, id) + rest)[3] == id,
        (frame(payload, id) + rest).subrange(4, 4 + payload.len() as int) == payload,
        (frame(payload, id) + rest).skip(4 + payload.len() as int) == rest,
{
    lemma_u24_bytes(payload.len());
    assert((frame(payload, id) + rest).take(3) == u24_bytes(payload.len()));
}

/// A payload that fits in one packet is framed as one, and both sides go on with
/// the same sequence id.
pub proof fn law_short_payload_is_one_frame(payload: Seq<u8>, id: u8)
    requires
        payload.len() < MAX_PAYLOAD,
    ensures
        frames(payload, id) == frame(payload, id),
        id_after(payload.len(), id) == next_id(id),
{
}

/// Framing loses nothing: whatever its length, a payload is the joined payloads of
/// its packets, and reading stops where its last packet ends.
pub proof fn law_frames_join(payload: Seq<u8>, id: u8, rest: Seq<u8>)
    ensures
        joined(frames(payload, id) + rest) == Some((payload, rest)),
    decreases payload.len(),
{
    let wire = frames(payload, id) + rest;
    if payload.len() < MAX_PAYLOAD {
        law_frame_is_read_back(payload, id, rest);
    } else {
        let first = payload.take(MAX_PAYLOAD as int);
        let others = frames(payload.skip(MAX_PAYLOAD as int), next_id(id)) + rest;
        assert(wire == frame(first, id) + others);
        law_frame_is_read_back(first, id, others);
        law_frames_join(payload.skip(MAX_PAYLOAD as int), next_id(id), rest);
        assert(first + payload.skip(MAX_PAYLOAD as int) == payload);
    }
}

/// A payload takes four bytes more on the wire for each packet, of which there is
/// one more than the longest packets that it fills.
pub proof fn law_frames_length(payload: Seq<u8>, id: u8)
    ensures
        frames(payload, id).len() == payload.len() + 4 * (payload.len() / MAX_PAYLOAD as nat + 1),
    decreases payload.len(),
{
    if payload.len() >= MAX_PAYLOAD {
        law_frames_length(payload.skip(MAX_PAYLOAD as int), next_id(id));
    }
}

/// A payload that fits in one packet stands on the wire behind its length, in three
/// bytes with the least significant first, and the sequence id.
pub proof fn law_one_frame_byte_for_byte(payload: Seq<u8>, id: u8)
    requires
        payload.len() < 0xff_ffff,
    ensures
        frames(payload, id) == seq![
            (payload.len() % 256) as u8,
            (payload.len() / 256 % 256) as u8,
            (payload.len() / 65536) as u8,
            id,
        ] + payload,
{
    assert(payload.len() / 65536 % 256 == payload.len() / 65536);
}

/// A longer payload goes on, behind a full packet, as if what is left of it were
/// framed with the next sequence id.
pub proof fn law_long_payload_goes_on(payload: Seq<u8>, id: u8)
    requires
        payload.len() >= 0xff_ffff,
    ensures
        frames(payload, id) == seq![0xffu8, 0xff, 0xff, id] + payload.take(0xff_ffff) + frames(
            payload.skip(0xff_ffff),
            if id == 255 {
                0u8
            } else {
                (id + 1) as u8
            },
        ),
{
    assert(u24_bytes(0xff_ffff) == seq![0xffu8, 0xff, 0xff]);
}

/// Sequence ids count the packets and wrap after 255: the next id after a payload is
/// further on by one for the payload's last packet and by one for each full packet.
pub proof fn law_sequence_ids_count_packets(len: nat, id: u8)
    ensures
        id < 255 ==> next_id(id) == id + 1,
        id == 255 ==> next_id(id) == 0,
        len < 0xff_ffff ==> id_after(len, id) == next_id(id),
        id_after(len + 0xff_ffff, id) == id_after(len, next_id(id)),
{
    assert((len + 0xff_ffff) / 0xff_ffff == len / 0xff_ffff + 1);
}

/// What the four bytes ahead of a packet say: how long its payload is, and which
/// sequence id comes next.
pub open spec fn packet_header(s: Seq<u8>) -> (nat, u8) {
    (le_nat(s.take(3)), next_id(s[3]))
}

/// The first three of the four bytes give the length, the least significant first, and
/// the fourth gives the sequence id, which the next one follows.
pub proof fn law_packet_header_byte_for_byte(b0: u8, b1: u8, b2: u8, id: u8, rest: Seq<u8>)
    ensures
        packet_header(seq![b0, b1, b2, id] + rest).0 == b0 + 256 * b1 + 65536 * b2,
        id < 255 ==> packet_header(seq![b0, b1, b2, id] + rest).1 == id + 1,
        id == 255 ==> packet_header(seq![b0, b1, b2, id] + rest).1 == 0,
{
    let s = seq![b0, b1, b2, id] + rest;
    assert(s.take(3) =~= seq![b0, b1, b2]);
    lemma_le_nat_3(s.take(3));
}

/// The header of a payload on the wire gives back the payload's length, as far as one
/// packet holds it, and has the sequence id behind its own come next.
pub proof fn law_packet_header_is_read_back(payload: Seq<u8>, id: u8, rest: Seq<u8>)
    ensures
        packet_header(frames(payload, id) + rest) == (
            if payload.len() < 0xff_ffff {
                payload.len()
            } else {
                0xff_ffff
            },
            next_id(id),
        ),
{
    if payload.len() < 0xff_ffff {
        law_frame_is_read_back(payload, id, rest);
    } else {
        let first = payload.take(0xff_ffff);
        let more = frames(payload.skip(0xff_ffff), next_id(id)) + rest;
        law_frame_is_read_back(first, id, more);
        assert(frames(payload, id) + rest =~= frame(first, id) + more);
    }
}

/// A write buffer and the sequence id that is next, once a payload was written.
pub open spec fn written(buf: Seq<u8>, id: u8, payload: Seq<u8>) -> (Seq<u8>, u8) {
    (buf + frames(payload, id), id_after(payload.len(), id))
}

/// Writing keeps what the buffer holds, and the payload is read back from what is
/// behind it. Its first packet has the sequence id that the buffer was written with.
pub proof fn law_written_payload_is_read_back(buf: Seq<u8>, id: u8, payload: Seq<u8>)
    ensures
        written(buf, id, payload).0.take(buf.len() as int) == buf,
        joined(written(buf, id, payload).0.skip(buf.len() as int)) == Some(
            (payload, Seq::<u8>::empty()),
        ),
        written(buf, id, payload).0[buf.len() as int + 3] == id,
        payload.len() < 0xff_ffff && id < 255 ==> written(buf, id, payload).1 == id + 1,
        payload.len() < 0xff_ffff && id == 255 ==> written(buf, id, payload).1 == 0,
{
    let none = Seq::<u8>::empty();
    let all = written(buf, id, payload).0;
    assert(all.take(buf.len() as int) =~= buf);
    assert(all.skip(buf.len() as int) =~= frames(payload, id) + none);
    law_frames_join(payload, id, none);
    law_sequence_ids_count_packets(payload.len(), id);
    if payload.len() < 0xff_ffff {
        law_frame_is_read_back(payload, id, none);
    } else {
        let first = payload.take(0xff_ffff);
        let more = frames(payload.skip(0xff_ffff), next_id(id));
        law_frame_is_read_back(first, id, more);
        assert(frames(payload, id) =~= frame(first, id) + more);
    }
}

/// Payloads that were written one after the other are read back in that order.
pub proof fn law_written_payloads_keep_their_order(id: u8, first: Seq<u8>, second: Seq<u8>)
    ensures
        ({
            let (buf, next) = written(Seq::empty(), id, first);
            let (all, _) = written(buf, next, second);
            joined(all) matches Some((p, rest)) && p == first && joined(rest) == Some(
                (second, Seq::<u8>::empty()),
            )
        }),
{
    let none = Seq::<u8>::empty();
    let (buf, next) = written(none, id, first);
    let (all, _) = written(buf, next, second);
    let tail = frames(second, next);
    assert(all =~= frames(first, id) + tail);
    law_frames_join(first, id, tail);
    law_frames_join(second, next, none);
    assert(tail + none =~= tail);
}

} // verus!
