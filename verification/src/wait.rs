//! Skipping the responses that nobody read, so that the next command can be sent.
use crate::buf::{law_le_number_is_read_back, le_bytes, lemma_pow_256};
use crate::capabilities::{
    law_capabilities_are_bits, law_status_flags_are_bits, Capabilities, DEPRECATE_EOF,
    SERVER_MORE_RESULTS_EXISTS,
};
use crate::error::{ErrPacket, ErrPacketView, ErrorView, ProtocolError};
use crate::packet::{
    end_of_rows, law_eof_packet_is_read_back, law_error_with_state_is_read_back,
    law_lenenc_is_read_back, law_ok_packet_is_read_back, lemma_uint_lenenc_bound, lenenc_bytes,
    uint_lenenc, EofPacket, OkPacket,
};
use std::collections::VecDeque;
use vstd::prelude::*;
use vstd::utf8::*;

verus! {

/// What the next response belongs to.
#[derive(Debug, Clone, Copy, PartialEq, Eq, Structural)]
pub enum Waiting {
    /// A result set.
    Result,
    /// A row within a result set.
    Row,
}

/// The queue without its front.
pub open spec fn popped(w: Seq<Waiting>) -> Seq<Waiting> {
    if w.len() == 0 {
        w
    } else {
        w.drop_first()
    }
}

/// Replaces the front of the queue.
pub(crate) fn set_front(waiting: &mut VecDeque<Waiting>, front: Waiting)
    requires
        old(waiting)@.len() > 0,
    ensures
        final(waiting)@ == old(waiting)@.update(0, front),
{
    let _ = waiting.pop_front();
    waiting.push_front(front);
    assert(waiting@ == old(waiting)@.update(0, front));
}

/// How far the skipping of unread responses has come.
#[derive(Debug, Clone, Copy, PartialEq, Eq, Structural)]
pub enum Draining {
    /// The next packet belongs to the response at the front of the queue.
    Response,
    /// So many column definitions come first.
    Columns { left: u64 },
    /// The EOF packet behind the column definitions comes first.
    ColumnsEnd,
}

impl Draining {
    /// Some column definition is left wherever column definitions are awaited.
    pub open spec fn wf(self) -> bool {
        self matches Draining::Columns { left } ==> left > 0
    }
}

/// What has to be done next to get a stream ready for a command.
#[derive(Debug, Clone, Copy, PartialEq, Eq, Structural)]
pub enum WaitAction {
    /// Write out the write buffer.
    Flush,
    /// Receive a packet.
    Receive,
    /// Nothing: the stream is ready.
    Ready,
}

/// What is awaited once the number of columns that are still to be defined is known.
pub open spec fn after_columns(left: nat, capabilities: Capabilities) -> Draining {
    if left > 0 {
        Draining::Columns { left: left as u64 }
    } else if capabilities.has(DEPRECATE_EOF) {
        Draining::Response
    } else {
        Draining::ColumnsEnd
    }
}

/// Whether a packet among rows ends them: it has the header of an EOF packet and
/// is too short for a row.
pub open spec fn ends_rows(s: Seq<u8>) -> bool {
    0 < s.len() < 9 && s[0] == 0xfe
}

/// Whether a packet that opens a response is the whole of it.
pub open spec fn is_final(s: Seq<u8>) -> bool {
    s.len() > 0 && (s[0] == 0x00 || s[0] == 0xff)
}

/// A packet among the rows of the response at the front of the queue: the queue
/// after it, and what is awaited then.
pub open spec fn row_step(w: Seq<Waiting>, capabilities: Capabilities, s: Seq<u8>) -> (
    Seq<Waiting>,
    Result<Draining, ProtocolError>,
) {
    if !ends_rows(s) {
        (w, Ok(Draining::Response))
    } else {
        match end_of_rows(s, capabilities) {
            Err(e) => (w, Err(e)),
            Ok(eof) => if eof.status.has(SERVER_MORE_RESULTS_EXISTS) {
                (w.update(0, Waiting::Result), Ok(Draining::Response))
            } else {
                (w.drop_first(), Ok(Draining::Response))
            },
        }
    }
}

/// A packet that opens the response at the front of the queue: the queue after it,
/// and what is awaited then.
pub open spec fn result_step(w: Seq<Waiting>, capabilities: Capabilities, s: Seq<u8>) -> (
    Seq<Waiting>,
    Result<Draining, ProtocolError>,
) {
    if is_final(s) {
        match OkPacket::content(s) {
            Err(e) => (w, Err(e)),
            Ok(ok) => if ok.status.has(SERVER_MORE_RESULTS_EXISTS) {
                (w, Ok(Draining::Response))
            } else {
                (w.drop_first(), Ok(Draining::Response))
            },
        }
    } else {
        (
            w.update(0, Waiting::Row),
            match uint_lenenc(s) {
                Err(e) => Err(e),
                Ok((columns, _)) => Ok(after_columns(columns, capabilities)),
            },
        )
    }
}

/// Any packet, while unread responses are skipped.
pub open spec fn wait_step(
    w: Seq<Waiting>,
    state: Draining,
    capabilities: Capabilities,
    s: Seq<u8>,
) -> (Seq<Waiting>, Result<Draining, ProtocolError>) {
    match state {
        Draining::Response => if w[0] == Waiting::Row {
            row_step(w, capabilities, s)
        } else {
            result_step(w, capabilities, s)
        },
        Draining::Columns { left } => (w, Ok(after_columns((left - 1) as nat, capabilities))),
        Draining::ColumnsEnd => (
            w,
            match EofPacket::content(s) {
                Err(e) => Err(e),
                Ok(_) => Ok(Draining::Response),
            },
        ),
    }
}

/// Where the skipping of unread responses stands after some packets.
#[verifier::ext_equal]
pub struct WaitRun {
    /// The responses that are still awaited.
    pub waiting: Seq<Waiting>,
    pub state: Result<Draining, ProtocolError>,
    /// The packets that were not needed.
    pub unread: Seq<Seq<u8>>,
}

/// Skips unread responses with the packets that arrive, until none is awaited any
/// more, a packet cannot be read, or the packets have run out.
pub open spec fn wait_run(
    w: Seq<Waiting>,
    state: Draining,
    capabilities: Capabilities,
    packets: Seq<Seq<u8>>,
) -> WaitRun
    decreases packets.len(),
{
    if packets.len() == 0 || (state == Draining::Response && w.len() == 0) {
        WaitRun { waiting: w, state: Ok(state), unread: packets }
    } else {
        let (w, next) = wait_step(w, state, capabilities, packets[0]);
        match next {
            Ok(state) => wait_run(w, state, capabilities, packets.skip(1)),
            Err(e) => WaitRun { waiting: w, state: Err(e), unread: packets.skip(1) },
        }
    }
}

/// Whether `after` is a queue that was `before`: some responses have left its
/// front, and of those that stay only the first may have changed.
pub open spec fn moved_on(before: Seq<Waiting>, after: Seq<Waiting>) -> bool {
    &&& after.len() <= before.len()
    &&& forall|i: int|
        1 <= i < after.len() ==> #[trigger] after[i] == before[before.len() - after.len() + i]
}

/// One packet takes at most one response off the queue, from its front, and leaves
/// those behind it as they are.
pub proof fn law_packet_touches_only_the_front(
    w: Seq<Waiting>,
    state: Draining,
    capabilities: Capabilities,
    s: Seq<u8>,
)
    requires
        state == Draining::Response ==> w.len() > 0,
    ensures
        moved_on(w, wait_step(w, state, capabilities, s).0),
        wait_step(w, state, capabilities, s).0.len() >= w.len() - 1,
{
}

/// Responses are read in the order in which they were asked for: however many
/// packets arrive, the queue loses responses at its front alone.
pub proof fn law_queue_keeps_its_order(
    w: Seq<Waiting>,
    state: Draining,
    capabilities: Capabilities,
    packets: Seq<Seq<u8>>,
)
    ensures
        moved_on(w, wait_run(w, state, capabilities, packets).waiting),
    decreases packets.len(),
{
    if packets.len() == 0 || (state == Draining::Response && w.len() == 0) {
    } else {
        law_packet_touches_only_the_front(w, state, capabilities, packets[0]);
        let (w1, next) = wait_step(w, state, capabilities, packets[0]);
        if let Ok(state1) = next {
            law_queue_keeps_its_order(w1, state1, capabilities, packets.skip(1));
        }
    }
}

/// A run that has not failed and did not need all packets ends with no response
/// awaited.
pub proof fn law_stops_only_when_ready(
    w: Seq<Waiting>,
    state: Draining,
    capabilities: Capabilities,
    packets: Seq<Seq<u8>>,
)
    ensures
        ({
            let end = wait_run(w, state, capabilities, packets);
            end.state is Ok && end.unread.len() > 0 ==> end.waiting.len() == 0 && end.state
                == Ok::<Draining, ProtocolError>(Draining::Response)
        }),
    decreases packets.len(),
{
    if packets.len() == 0 || (state == Draining::Response && w.len() == 0) {
    } else {
        let (w1, next) = wait_step(w, state, capabilities, packets[0]);
        if let Ok(state1) = next {
            law_stops_only_when_ready(w1, state1, capabilities, packets.skip(1));
        }
    }
}

/// A command without a result set is answered by one packet, which takes it off the
/// queue, unless the packet announces more results.
pub proof fn law_ok_packet_is_a_response(
    w: Seq<Waiting>,
    capabilities: Capabilities,
    ok: Seq<u8>,
    rest: Seq<Seq<u8>>,
)
    requires
        w.len() > 0,
        w[0] == Waiting::Result,
        is_final(ok),
        OkPacket::content(ok) is Ok,
    ensures
        wait_run(w, Draining::Response, capabilities, seq![ok] + rest) == wait_run(
            if OkPacket::content(ok)->Ok_0.status.has(SERVER_MORE_RESULTS_EXISTS) {
                w
            } else {
                w.drop_first()
            },
            Draining::Response,
            capabilities,
            rest,
        ),
{
    assert((seq![ok] + rest).skip(1) == rest);
}

proof fn lemma_columns_are_skipped(
    w: Seq<Waiting>,
    capabilities: Capabilities,
    columns: Seq<Seq<u8>>,
    rest: Seq<Seq<u8>>,
)
    requires
        columns.len() <= u64::MAX,
    ensures
        wait_run(w, after_columns(columns.len(), capabilities), capabilities, columns + rest)
            == wait_run(w, after_columns(0, capabilities), capabilities, rest),
    decreases columns.len(),
{
    if columns.len() == 0 {
        assert(columns + rest == rest);
    } else {
        assert((columns + rest).skip(1) == columns.skip(1) + rest);
        lemma_columns_are_skipped(w, capabilities, columns.skip(1), rest);
    }
}

proof fn lemma_rows_are_skipped(
    w: Seq<Waiting>,
    capabilities: Capabilities,
    rows: Seq<Seq<u8>>,
    rest: Seq<Seq<u8>>,
)
    requires
        w.len() > 0,
        w[0] == Waiting::Row,
        forall|i: int| 0 <= i < rows.len() ==> !ends_rows(#[trigger] rows[i]),
    ensures
        wait_run(w, Draining::Response, capabilities, rows + rest) == wait_run(
            w,
            Draining::Response,
            capabilities,
            rest,
        ),
    decreases rows.len(),
{
    if rows.len() == 0 {
        assert(rows + rest == rest);
    } else {
        assert((rows + rest)[0] == rows[0]);
        assert((rows + rest).skip(1) == rows.skip(1) + rest);
        assert forall|i: int| 0 <= i < rows.skip(1).len() implies !ends_rows(
            #[trigger] rows.skip(1)[i],
        ) by {
            assert(rows.skip(1)[i] == rows[i + 1]);
        }
        lemma_rows_are_skipped(w, capabilities, rows.skip(1), rest);
    }
}

/// The packets of a result set: one that holds the number of columns, one for each
/// column, an EOF packet where those are not deprecated, the rows, and one that
/// ends the rows.
pub open spec fn result_set(
    capabilities: Capabilities,
    count: Seq<u8>,
    columns: Seq<Seq<u8>>,
    columns_end: Seq<u8>,
    rows: Seq<Seq<u8>>,
    end: Seq<u8>,
) -> Seq<Seq<u8>> {
    seq![count] + columns + (if capabilities.has(DEPRECATE_EOF) {
        Seq::empty()
    } else {
        seq![columns_end]
    }) + rows + seq![end]
}

/// A result set is skipped as a whole: after its last packet the response it
/// belongs to is off the queue, or awaits the next result set where that packet
/// announces one, and the packets behind it are untouched.
pub proof fn law_result_set_is_skipped(
    w: Seq<Waiting>,
    capabilities: Capabilities,
    count: Seq<u8>,
    columns: Seq<Seq<u8>>,
    columns_end: Seq<u8>,
    rows: Seq<Seq<u8>>,
    end: Seq<u8>,
    rest: Seq<Seq<u8>>,
)
    requires
        w.len() > 0,
        w[0] == Waiting::Result,
        !is_final(count),
        uint_lenenc(count) matches Ok((n, _)) && n == columns.len(),
        capabilities.has(DEPRECATE_EOF) || EofPacket::content(columns_end) is Ok,
        forall|i: int| 0 <= i < rows.len() ==> !ends_rows(#[trigger] rows[i]),
        ends_rows(end),
        end_of_rows(end, capabilities) is Ok,
    ensures
        wait_run(
            w,
            Draining::Response,
            capabilities,
            result_set(capabilities, count, columns, columns_end, rows, end) + rest,
        ) == wait_run(
            if end_of_rows(end, capabilities)->Ok_0.status.has(SERVER_MORE_RESULTS_EXISTS) {
                w
            } else {
                w.drop_first()
            },
            Draining::Response,
            capabilities,
            rest,
        ),
{
    lemma_uint_lenenc_bound(count);
    let w1 = w.update(0, Waiting::Row);
    let tail = rows + (seq![end] + rest);
    let middle = if capabilities.has(DEPRECATE_EOF) {
        Seq::empty()
    } else {
        seq![columns_end]
    };
    let all = result_set(capabilities, count, columns, columns_end, rows, end) + rest;
    assert(all[0] == count);
    assert(all.skip(1) == columns + (middle + tail));
    lemma_columns_are_skipped(w1, capabilities, columns, middle + tail);
    if capabilities.has(DEPRECATE_EOF) {
        assert(middle + tail == tail);
    } else {
        assert((middle + tail)[0] == columns_end);
        assert((middle + tail).skip(1) == tail);
    }
    assert(wait_run(w1, after_columns(0, capabilities), capabilities, middle + tail) == wait_run(
        w1,
        Draining::Response,
        capabilities,
        tail,
    ));
    lemma_rows_are_skipped(w1, capabilities, rows, seq![end] + rest);
    assert((seq![end] + rest).skip(1) == rest);
    assert(w1.update(0, Waiting::Result) == w);
    assert(w1.drop_first() == w.drop_first());
}

/// While rows are awaited, a packet whose first byte is not 0xfe, or that has nine
/// bytes or more, leaves the queue as it is and keeps rows awaited. Only a shorter
/// packet with the first byte 0xfe ends the rows: it takes the response off the queue,
/// or has the next result set awaited where its status says that more results follow,
/// or it cannot be read and leaves the queue as it is.
pub proof fn law_only_a_short_packet_ends_rows(
    w: Seq<Waiting>,
    capabilities: Capabilities,
    s: Seq<u8>,
)
    requires
        w.len() > 0,
        w[0] == Waiting::Row,
    ensures
        s.len() == 0 || s.len() >= 9 || s[0] != 0xfe ==> wait_step(
            w,
            Draining::Response,
            capabilities,
            s,
        ) == (w, Ok::<Draining, ProtocolError>(Draining::Response)),
        0 < s.len() < 9 && s[0] == 0xfe ==> match end_of_rows(s, capabilities) {
            Ok(eof) => wait_step(w, Draining::Response, capabilities, s) == (
                if (eof.status.bits >> 3) & 1 == 1 {
                    seq![Waiting::Result] + w.skip(1)
                } else {
                    w.skip(1)
                },
                Ok::<Draining, ProtocolError>(Draining::Response),
            ),
            Err(e) => wait_step(w, Draining::Response, capabilities, s) == (
                w,
                Err::<Draining, ProtocolError>(e),
            ),
        },
        wait_step(w, Draining::Response, capabilities, s).0 != w ==> 0 < s.len() < 9 && s[0]
            == 0xfe,
{
    if let Ok(eof) = end_of_rows(s, capabilities) {
        law_status_flags_are_bits(eof.status, 0, 0, 0);
    }
    assert(w.update(0, Waiting::Result) =~= seq![Waiting::Result] + w.skip(1));
    assert(w.drop_first() =~= w.skip(1));
}

/// While a result is awaited, a packet with the first byte 0x00 is the whole of it:
/// it takes the response off the queue unless its status says that more results
/// follow. One with the first byte 0xff, and one that cannot be read, is an error that
/// leaves the queue as it is.
pub proof fn law_short_response_is_one_packet(
    w: Seq<Waiting>,
    capabilities: Capabilities,
    s: Seq<u8>,
)
    requires
        w.len() > 0,
        w[0] == Waiting::Result,
        s.len() > 0,
        s[0] == 0x00 || s[0] == 0xff,
    ensures
        s[0] == 0xff ==> wait_step(w, Draining::Response, capabilities, s) == (
            w,
            Err::<Draining, ProtocolError>(ProtocolError::NotOkPacket { header: 0xff }),
        ),
        match OkPacket::content(s) {
            Ok(ok) => wait_step(w, Draining::Response, capabilities, s) == (
                if (ok.status.bits >> 3) & 1 == 1 {
                    w
                } else {
                    w.skip(1)
                },
                Ok::<Draining, ProtocolError>(Draining::Response),
            ),
            Err(e) => wait_step(w, Draining::Response, capabilities, s) == (
                w,
                Err::<Draining, ProtocolError>(e),
            ),
        },
{
    if let Ok(ok) = OkPacket::content(s) {
        law_status_flags_are_bits(ok.status, 0, 0, 0);
    }
    assert(w.drop_first() =~= w.skip(1));
}

/// While a result is awaited, a packet with another first byte opens a result set,
/// whose rows are awaited from then on. It holds the number of columns: so many column
/// definitions come first, and without any the EOF packet that follows them, unless
/// bit 24 of the capabilities deprecates it.
pub proof fn law_column_count_opens_a_result_set(
    w: Seq<Waiting>,
    capabilities: Capabilities,
    s: Seq<u8>,
)
    requires
        w.len() > 0,
        w[0] == Waiting::Result,
        s.len() == 0 || (s[0] != 0x00 && s[0] != 0xff),
    ensures
        wait_step(w, Draining::Response, capabilities, s).0 == seq![Waiting::Row] + w.skip(1),
        match uint_lenenc(s) {
            Err(e) => wait_step(w, Draining::Response, capabilities, s).1 == Err::<
                Draining,
                ProtocolError,
            >(e),
            Ok((columns, _)) => wait_step(w, Draining::Response, capabilities, s).1 == Ok::<
                Draining,
                ProtocolError,
            >(
                if columns > 0 {
                    Draining::Columns { left: columns as u64 }
                } else if (capabilities.bits >> 24) & 1 == 1 {
                    Draining::Response
                } else {
                    Draining::ColumnsEnd
                },
            ),
        },
{
    law_capabilities_are_bits(capabilities);
    assert(w.update(0, Waiting::Row) =~= seq![Waiting::Row] + w.skip(1));
}

/// Each column definition, whatever it holds, leaves one less to come and the queue as
/// it is. Behind the last one the EOF packet is awaited, unless bit 24 of the
/// capabilities deprecates it; that packet must be readable, and then the rows come.
pub proof fn law_column_definitions_count_down(
    w: Seq<Waiting>,
    left: u64,
    capabilities: Capabilities,
    s: Seq<u8>,
)
    requires
        left > 0,
    ensures
        wait_step(w, Draining::Columns { left }, capabilities, s) == (
            w,
            Ok::<Draining, ProtocolError>(
                if left > 1 {
                    Draining::Columns { left: (left - 1) as u64 }
                } else if (capabilities.bits >> 24) & 1 == 1 {
                    Draining::Response
                } else {
                    Draining::ColumnsEnd
                },
            ),
        ),
        EofPacket::content(s) is Ok ==> wait_step(w, Draining::ColumnsEnd, capabilities, s) == (
            w,
            Ok::<Draining, ProtocolError>(Draining::Response),
        ),
        EofPacket::content(s) matches Err(e) ==> wait_step(
            w,
            Draining::ColumnsEnd,
            capabilities,
            s,
        ) == (w, Err::<Draining, ProtocolError>(e)),
{
    law_capabilities_are_bits(capabilities);
}

/// Column definitions are awaited only where some are left; without any, the EOF
/// packet behind them is, unless bit 24 of the capabilities deprecates it.
pub proof fn law_what_follows_the_columns(left: u64, capabilities: Capabilities)
    ensures
        left > 0 ==> after_columns(left as nat, capabilities) == (Draining::Columns { left }),
        (capabilities.bits >> 24) & 1 == 1 ==> after_columns(0, capabilities)
            == Draining::Response,
        (capabilities.bits >> 24) & 1 == 0 ==> after_columns(0, capabilities)
            == Draining::ColumnsEnd,
{
    law_capabilities_are_bits(capabilities);
}

/// The front is all that leaves a queue, and an empty queue stays as it is.
pub proof fn law_front_leaves_the_queue(front: Waiting, w: Seq<Waiting>)
    ensures
        popped(seq![front] + w) == w,
        popped(Seq::empty()) == Seq::<Waiting>::empty(),
{
    assert((seq![front] + w).drop_first() =~= w);
}

/// Packets are taken one by one, each in the state that the one ahead of it left. A
/// packet that cannot be read is the last one, and so is the one that takes the last
/// response off the queue.
pub proof fn law_packets_are_taken_in_turn(
    w: Seq<Waiting>,
    state: Draining,
    capabilities: Capabilities,
    s: Seq<u8>,
    rest: Seq<Seq<u8>>,
)
    ensures
        wait_run(w, state, capabilities, Seq::empty()) == (WaitRun {
            waiting: w,
            state: Ok(state),
            unread: Seq::empty(),
        }),
        w.len() == 0 && state == Draining::Response ==> wait_run(w, state, capabilities, rest) == (
        WaitRun { waiting: w, state: Ok(state), unread: rest }),
        w.len() > 0 || state != Draining::Response ==> match wait_step(
            w,
            state,
            capabilities,
            s,
        ) {
            (w1, Ok(state1)) => wait_run(w, state, capabilities, seq![s] + rest) == wait_run(
                w1,
                state1,
                capabilities,
                rest,
            ),
            (w1, Err(e)) => wait_run(w, state, capabilities, seq![s] + rest) == (WaitRun {
                waiting: w1,
                state: Err(e),
                unread: rest,
            }),
        },
{
    assert((seq![s] + rest)[0] == s);
    assert((seq![s] + rest).skip(1) =~= rest);
}

/// A result set as a server writes it is skipped as a whole: the number of its columns
/// in the length-encoded form, a packet for each, an EOF packet and rows of which none
/// is a short packet that begins with 0xfe, and the EOF packet that ends them. Then the
/// response is off the queue, or the next result set is awaited where the last packet
/// says that more results follow, and the packets behind are untouched.
pub proof fn law_written_result_set_is_skipped(
    w: Seq<Waiting>,
    capabilities: Capabilities,
    columns: Seq<Seq<u8>>,
    columns_end: EofPacket,
    rows: Seq<Seq<u8>>,
    end: EofPacket,
    rest: Seq<Seq<u8>>,
)
    requires
        w.len() > 0,
        w[0] == Waiting::Result,
        (capabilities.bits >> 24) & 1 == 0,
        0 < columns.len() < 0x1_0000_0000_0000_0000,
        forall|i: int|
            0 <= i < rows.len() ==> (#[trigger] rows[i]).len() == 0 || rows[i].len() >= 9
                || rows[i][0] != 0xfe,
    ensures
        wait_run(
            w,
            Draining::Response,
            capabilities,
            seq![lenenc_bytes(columns.len())] + columns + seq![columns_end.wire()] + rows
                + seq![end.wire()] + rest,
        ) == wait_run(
            if (end.status.bits >> 3) & 1 == 1 {
                w
            } else {
                w.skip(1)
            },
            Draining::Response,
            capabilities,
            rest,
        ),
{
    law_capabilities_are_bits(capabilities);
    law_status_flags_are_bits(end.status, 0, 0, 0);
    let none = Seq::<u8>::empty();
    let count = lenenc_bytes(columns.len());
    law_lenenc_is_read_back(columns.len(), none);
    law_eof_packet_is_read_back(columns_end, none, capabilities);
    law_eof_packet_is_read_back(end, none, capabilities);
    assert(count + none =~= count);
    assert(columns_end.wire() + none =~= columns_end.wire());
    assert(end.wire() + none =~= end.wire());
    lemma_eof_wire_is_short(end);
    law_result_set_is_skipped(
        w,
        capabilities,
        count,
        columns,
        columns_end.wire(),
        rows,
        end.wire(),
        rest,
    );
    assert(result_set(capabilities, count, columns, columns_end.wire(), rows, end.wire()) + rest
        =~= seq![count] + columns + seq![columns_end.wire()] + rows + seq![end.wire()] + rest);
    assert(w.drop_first() =~= w.skip(1));
}

/// A result set without EOF packets is skipped as a whole too: where bit 24 of the
/// capabilities deprecates them, the rows follow the columns, and a short OK packet
/// with the header 0xfe ends them.
pub proof fn law_written_result_set_without_eof_is_skipped(
    w: Seq<Waiting>,
    capabilities: Capabilities,
    columns: Seq<Seq<u8>>,
    rows: Seq<Seq<u8>>,
    end: OkPacket,
    rest: Seq<Seq<u8>>,
)
    requires
        w.len() > 0,
        w[0] == Waiting::Result,
        (capabilities.bits >> 24) & 1 == 1,
        0 < columns.len() < 0x1_0000_0000_0000_0000,
        forall|i: int|
            0 <= i < rows.len() ==> (#[trigger] rows[i]).len() == 0 || rows[i].len() >= 9
                || rows[i][0] != 0xfe,
        end.wire(0xfe).len() < 9,
    ensures
        wait_run(
            w,
            Draining::Response,
            capabilities,
            seq![lenenc_bytes(columns.len())] + columns + rows + seq![end.wire(0xfe)] + rest,
        ) == wait_run(
            if (end.status.bits >> 3) & 1 == 1 {
                w
            } else {
                w.skip(1)
            },
            Draining::Response,
            capabilities,
            rest,
        ),
{
    law_capabilities_are_bits(capabilities);
    law_status_flags_are_bits(end.status, 0, 0, 0);
    let none = Seq::<u8>::empty();
    let count = lenenc_bytes(columns.len());
    law_lenenc_is_read_back(columns.len(), none);
    law_ok_packet_is_read_back(0xfe, end, none, capabilities);
    assert(count + none =~= count);
    assert(end.wire(0xfe) + none =~= end.wire(0xfe));
    law_result_set_is_skipped(
        w,
        capabilities,
        count,
        columns,
        none,
        rows,
        end.wire(0xfe),
        rest,
    );
    assert(result_set(capabilities, count, columns, none, rows, end.wire(0xfe)) + rest =~= seq![
        count,
    ] + columns + rows + seq![end.wire(0xfe)] + rest);
    assert(w.drop_first() =~= w.skip(1));
}

/// The bytes of an EOF packet are too few for a row.
proof fn lemma_eof_wire_is_short(packet: EofPacket)
    ensures
        packet.wire().len() == 5,
        packet.wire()[0] == 0xfe,
{
    lemma_pow_256();
    law_le_number_is_read_back(packet.warnings as nat, 2);
    law_le_number_is_read_back(packet.status.bits as nat, 2);
}

/// What is to be done next, with so many bytes to write and so many responses awaited.
pub open spec fn next_action(state: Draining, unwritten: nat, awaited: nat) -> WaitAction {
    if state != Draining::Response {
        WaitAction::Receive
    } else if unwritten > 0 {
        WaitAction::Flush
    } else if awaited > 0 {
        WaitAction::Receive
    } else {
        WaitAction::Ready
    }
}

/// A stream is ready exactly when it has nothing left to write, to await or to finish.
/// Between two responses it writes before it receives, and within one it receives.
pub proof fn law_ready_only_when_nothing_is_left(state: Draining, unwritten: nat, awaited: nat)
    ensures
        next_action(state, unwritten, awaited) == WaitAction::Ready <==> state
            == Draining::Response && unwritten == 0 && awaited == 0,
        next_action(state, unwritten, awaited) == WaitAction::Flush <==> state
            == Draining::Response && unwritten != 0,
        next_action(state, unwritten, awaited) == WaitAction::Receive <==> state
            != Draining::Response || (unwritten == 0 && awaited != 0),
{
}

/// A stream that is to receive can take a packet in: it is within a response, or some
/// response is awaited. One that is ready leaves every packet unread.
pub proof fn law_packets_are_received_only_for_a_response(
    w: Seq<Waiting>,
    state: Draining,
    unwritten: nat,
    capabilities: Capabilities,
    packets: Seq<Seq<u8>>,
)
    ensures
        next_action(state, unwritten, w.len()) == WaitAction::Receive && packets.len() > 0
            ==> wait_run(w, state, capabilities, packets).unread.len() < packets.len(),
        next_action(state, unwritten, w.len()) == WaitAction::Ready ==> wait_run(
            w,
            state,
            capabilities,
            packets,
        ).unread == packets,
{
    if packets.len() > 0 && !(state == Draining::Response && w.len() == 0) {
        if let (w1, Ok(state1)) = wait_step(w, state, capabilities, packets[0]) {
            lemma_unread_packets_are_left(w1, state1, capabilities, packets.skip(1));
        }
    }
}

proof fn lemma_unread_packets_are_left(
    w: Seq<Waiting>,
    state: Draining,
    capabilities: Capabilities,
    packets: Seq<Seq<u8>>,
)
    ensures
        wait_run(w, state, capabilities, packets).unread.len() <= packets.len(),
    decreases packets.len(),
{
    if packets.len() > 0 && !(state == Draining::Response && w.len() == 0) {
        if let (w1, Ok(state1)) = wait_step(w, state, capabilities, packets[0]) {
            lemma_unread_packets_are_left(w1, state1, capabilities, packets.skip(1));
        }
    }
}

/// The payload of a packet as it arrives: the queue after it, and the payload or the
/// error that it is.
pub open spec fn packet_received(
    w: Seq<Waiting>,
    capabilities: Capabilities,
    s: Seq<u8>,
) -> (Seq<Waiting>, Result<Seq<u8>, ErrorView>) {
    if s.len() == 0 {
        (w, Err(ErrorView::Protocol(ProtocolError::PacketEmpty)))
    } else if s[0] == 0xff {
        (
            popped(w),
            match ErrPacket::decoded(s, capabilities) {
                Ok(packet) => Err(ErrorView::Database(packet)),
                Err(e) => Err(ErrorView::Protocol(e)),
            },
        )
    } else {
        (w, Ok(s))
    }
}

/// A packet that does not begin with 0xff is handed on as it stands and leaves the
/// queue as it is; so does an empty packet, which is an error. A packet that begins
/// with 0xff is an error, and the oldest request is awaited no longer, whether the
/// packet can be read or not.
pub proof fn law_only_an_error_packet_is_an_answer(
    front: Waiting,
    w: Seq<Waiting>,
    capabilities: Capabilities,
    first: u8,
    s: Seq<u8>,
)
    ensures
        packet_received(w, capabilities, Seq::empty()) == (
            w,
            Err::<Seq<u8>, ErrorView>(ErrorView::Protocol(ProtocolError::PacketEmpty)),
        ),
        first != 0xff ==> packet_received(w, capabilities, seq![first] + s) == (
            w,
            Ok::<Seq<u8>, ErrorView>(seq![first] + s),
        ),
        first == 0xff ==> {
            &&& packet_received(seq![front] + w, capabilities, seq![first] + s).0 == w
            &&& packet_received(Seq::empty(), capabilities, seq![first] + s).0 == Seq::<
                Waiting,
            >::empty()
            &&& ErrPacket::decoded(seq![first] + s, capabilities) matches Ok(packet)
                ==> packet_received(w, capabilities, seq![first] + s).1 == Err::<
                Seq<u8>,
                ErrorView,
            >(ErrorView::Database(packet))
            &&& ErrPacket::decoded(seq![first] + s, capabilities) matches Err(e)
                ==> packet_received(w, capabilities, seq![first] + s).1 == Err::<
                Seq<u8>,
                ErrorView,
            >(ErrorView::Protocol(e))
        },
{
    law_front_leaves_the_queue(front, w);
}

/// An error that the server reports is received as it was written, and answers the
/// oldest request.
pub proof fn law_written_error_is_received(
    front: Waiting,
    w: Seq<Waiting>,
    capabilities: Capabilities,
    error_code: u16,
    state: Seq<char>,
    error_message: Seq<char>,
)
    requires
        is_ascii_chars(state),
        state.len() == 5,
        (capabilities.bits >> 9) & 1 == 1,
    ensures
        packet_received(
            seq![front] + w,
            capabilities,
            seq![0xffu8] + le_bytes(error_code as nat, 2) + seq![0x23u8] + encode_utf8(state)
                + encode_utf8(error_message),
        ) == (
            w,
            Err::<Seq<u8>, ErrorView>(
                ErrorView::Database(
                    ErrPacketView { error_code, sql_state: Some(state), error_message },
                ),
            ),
        ),
{
    law_error_with_state_is_read_back(error_code, state, error_message, capabilities);
    law_front_leaves_the_queue(front, w);
}

} // verus!
