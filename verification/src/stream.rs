//! A connection to a MySQL server.
use crate::buf::{as_slice, bytes_of, get_u8, get_uint_le, le_nat, lemma_le_nat_3};
use crate::capabilities::{
    law_capabilities_are_bits, Capabilities, CONNECT_WITH_DB, DEPRECATE_EOF, FOUND_ROWS,
    IGNORE_SPACE, MULTI_RESULTS, MULTI_STATEMENTS, PLUGIN_AUTH, PLUGIN_AUTH_LENENC_DATA,
    PROTOCOL_41, PS_MULTI_RESULTS, SECURE_CONNECTION, SERVER_MORE_RESULTS_EXISTS, SSL,
    TRANSACTIONS,
};
use crate::error::{ErrPacket, Error, ErrorView, ProtocolError};
use crate::frame::{frames, id_after, next_id, packet_header, written};
use crate::packet::{get_uint_lenenc, uint_lenenc, EofPacket, Packet, ProtocolDecode};
use crate::receive::{
    late_step, law_packets_are_received_in_turn, recv_run, recv_step, Receiving, MAX_SKIPPED,
};
use crate::socket::{boxed_of, BufferedSocket, Socket};
use crate::wait::{
    after_columns, law_packets_are_taken_in_turn, next_action, packet_received, popped, result_step,
    row_step, set_front, wait_run, wait_step, Draining, WaitAction, WaitRun, Waiting,
};
use bytes::Bytes;
use core::ops::{Deref, DerefMut};
use std::collections::VecDeque;
use vstd::prelude::*;

verus! {

/// The name of a character set.
#[derive(Debug)]
pub struct CharSet {
    pub name: String,
}

/// The number of a collation.
#[derive(Debug, Clone, Copy, PartialEq, Eq, Structural)]
pub struct Collation {
    pub id: u16,
}

/// What a connection is made with.
#[derive(Debug)]
pub struct MySqlConnectOptions {
    /// The database to select in the handshake.
    pub database: Option<String>,
}

/// A connection to a MySQL server.
pub struct MySqlStream<S = Box<dyn Socket>> {
    pub socket: BufferedSocket<S>,
    pub server_version: (u16, u16, u16),
    pub capabilities: Capabilities,
    pub sequence_id: u8,
    /// The responses that were asked for and not read yet, oldest first.
    pub waiting: VecDeque<Waiting>,
    pub charset: CharSet,
    pub collation: Collation,
    pub is_tls: bool,
}

/// The capabilities that a client asks for.
pub open spec fn client_capabilities(with_database: bool) -> Capabilities {
    let bits = PROTOCOL_41 | IGNORE_SPACE | DEPRECATE_EOF | FOUND_ROWS | TRANSACTIONS
        | SECURE_CONNECTION | PLUGIN_AUTH_LENENC_DATA | MULTI_STATEMENTS | MULTI_RESULTS
        | PLUGIN_AUTH | PS_MULTI_RESULTS | SSL;
    Capabilities {
        bits: if with_database {
            bits | CONNECT_WITH_DB
        } else {
            bits
        },
    }
}

impl<S> MySqlStream<S> {
    /// A stream over a fresh connection, on which nothing was sent yet.
    pub fn with_socket(
        charset: CharSet,
        collation: Collation,
        options: &MySqlConnectOptions,
        socket: S,
    ) -> (r: MySqlStream<S>)
        ensures
            r.socket.socket == socket,
            r.socket.write_buf@ == Seq::<u8>::empty(),
            r.server_version == (0u16, 0u16, 0u16),
            r.capabilities == client_capabilities(options.database is Some),
            r.sequence_id == 0,
            r.waiting@ == Seq::<Waiting>::empty(),
            r.charset == charset,
            r.collation == collation,
            !r.is_tls,
    {
        let mut bits: u64 = PROTOCOL_41 | IGNORE_SPACE | DEPRECATE_EOF | FOUND_ROWS | TRANSACTIONS
            | SECURE_CONNECTION | PLUGIN_AUTH_LENENC_DATA | MULTI_STATEMENTS | MULTI_RESULTS
            | PLUGIN_AUTH | PS_MULTI_RESULTS | SSL;
        if options.database.is_some() {
            bits = bits | CONNECT_WITH_DB;
        }
        MySqlStream {
            waiting: VecDeque::new(),
            capabilities: Capabilities { bits },
            server_version: (0, 0, 0),
            sequence_id: 0,
            collation,
            charset,
            socket: BufferedSocket::new(socket),
            is_tls: false,
        }
    }

    /// What has to be done next so that everything was written, every response that
    /// is still awaited has been read, and a command can be sent. It starts in the
    /// state [`Draining::Response`].
    pub fn wait_until_ready(&self, state: Draining) -> (r: WaitAction)
        ensures
            r == (if state != Draining::Response {
                WaitAction::Receive
            } else if self.socket.write_buf@.len() > 0 {
                WaitAction::Flush
            } else if self.waiting@.len() > 0 {
                WaitAction::Receive
            } else {
                WaitAction::Ready
            }),
            r == next_action(state, self.socket.write_buf@.len(), self.waiting@.len()),
    {
        match state {
            Draining::Response => {
                if self.socket.write_buffer().len() > 0 {
                    WaitAction::Flush
                } else if self.waiting.len() > 0 {
                    WaitAction::Receive
                } else {
                    WaitAction::Ready
                }
            },
            _ => WaitAction::Receive,
        }
    }

    /// Takes in a packet while the stream gets ready.
    pub fn wait_received(&mut self, state: Draining, packet: Packet) -> (r: Result<Draining, Error>)
        requires
            state.wf(),
            state == Draining::Response ==> old(self).waiting@.len() > 0,
        ensures
            *final(self) == (MySqlStream { waiting: final(self).waiting, ..*old(self) }),
            final(self).waiting@ == wait_step(
                old(self).waiting@,
                state,
                old(self).capabilities,
                packet@,
            ).0,
            match wait_step(old(self).waiting@, state, old(self).capabilities, packet@).1 {
                Ok(next) => r == Ok::<Draining, Error>(next) && next.wf(),
                Err(e) => r == Err::<Draining, Error>(Error::Protocol(e)),
            },
            forall|rest: Seq<Seq<u8>>|
                #[trigger] wait_run(
                    old(self).waiting@,
                    state,
                    old(self).capabilities,
                    seq![packet@] + rest,
                ) == (match r {
                    Ok(next) => wait_run(
                        final(self).waiting@,
                        next,
                        final(self).capabilities,
                        rest,
                    ),
                    Err(e) => WaitRun {
                        waiting: final(self).waiting@,
                        state: Err(e->Protocol_0),
                        unread: rest,
                    },
                }),
    {
        proof {
            assert forall|rest: Seq<Seq<u8>>| true implies (match wait_step(
                self.waiting@,
                state,
                self.capabilities,
                packet@,
            ) {
                (w, Ok(next)) => #[trigger] wait_run(
                    self.waiting@,
                    state,
                    self.capabilities,
                    seq![packet@] + rest,
                ) == wait_run(w, next, self.capabilities, rest),
                (w, Err(e)) => wait_run(
                    self.waiting@,
                    state,
                    self.capabilities,
                    seq![packet@] + rest,
                ) == (WaitRun { waiting: w, state: Err(e), unread: rest }),
            }) by {
                law_packets_are_taken_in_turn(
                    self.waiting@,
                    state,
                    self.capabilities,
                    packet@,
                    rest,
                );
            }
        }
        match state {
            Draining::Response => {
                if self.waiting[0] == Waiting::Row {
                    self.row_received(packet)
                } else {
                    self.result_received(packet)
                }
            },
            Draining::Columns { left } => Ok(self.columns_left(left - 1)),
            Draining::ColumnsEnd => {
                match packet.decode_with::<EofPacket>(self.capabilities) {
                    Ok(_) => Ok(Draining::Response),
                    Err(e) => Err(Error::Protocol(e)),
                }
            },
        }
    }

    fn row_received(&mut self, packet: Packet) -> (r: Result<Draining, Error>)
        requires
            old(self).waiting@.len() > 0,
        ensures
            *final(self) == (MySqlStream { waiting: final(self).waiting, ..*old(self) }),
            final(self).waiting@ == row_step(
                old(self).waiting@,
                old(self).capabilities,
                packet@,
            ).0,
            match row_step(old(self).waiting@, old(self).capabilities, packet@).1 {
                Ok(next) => r == Ok::<Draining, Error>(next) && next.wf(),
                Err(e) => r == Err::<Draining, Error>(Error::Protocol(e)),
            },
    {
        let slice = as_slice(&packet.0);
        if slice.len() > 0 && slice[0] == 0xfe && slice.len() < 9 {
            let eof = match packet.eof(self.capabilities) {
                Ok(eof) => eof,
                Err(e) => return Err(Error::Protocol(e)),
            };
            if eof.status.contains(SERVER_MORE_RESULTS_EXISTS) {
                set_front(&mut self.waiting, Waiting::Result);
            } else {
                let _ = self.waiting.pop_front();
                assert(self.waiting@ == old(self).waiting@.drop_first());
            }
        }
        Ok(Draining::Response)
    }

    fn result_received(&mut self, packet: Packet) -> (r: Result<Draining, Error>)
        requires
            old(self).waiting@.len() > 0,
        ensures
            *final(self) == (MySqlStream { waiting: final(self).waiting, ..*old(self) }),
            final(self).waiting@ == result_step(
                old(self).waiting@,
                old(self).capabilities,
                packet@,
            ).0,
            match result_step(old(self).waiting@, old(self).capabilities, packet@).1 {
                Ok(next) => r == Ok::<Draining, Error>(next) && next.wf(),
                Err(e) => r == Err::<Draining, Error>(Error::Protocol(e)),
            },
    {
        let slice = as_slice(&packet.0);
        if slice.len() > 0 && (slice[0] == 0x00 || slice[0] == 0xff) {
            let ok = match packet.ok() {
                Ok(ok) => ok,
                Err(e) => return Err(Error::Protocol(e)),
            };
            if !ok.status.contains(SERVER_MORE_RESULTS_EXISTS) {
                let _ = self.waiting.pop_front();
                assert(self.waiting@ == old(self).waiting@.drop_first());
            }
            Ok(Draining::Response)
        } else {
            set_front(&mut self.waiting, Waiting::Row);
            self.skip_result_metadata(packet)
        }
    }

    /// What has to be skipped behind the packet that opens a result set, which
    /// holds the number of columns.
    pub fn skip_result_metadata(&self, packet: Packet) -> (r: Result<Draining, Error>)
        ensures
            match uint_lenenc(packet@) {
                Ok((columns, _)) => r == Ok::<Draining, Error>(
                    after_columns(columns, self.capabilities),
                ) && after_columns(columns, self.capabilities).wf(),
                Err(e) => r == Err::<Draining, Error>(Error::Protocol(e)),
            },
    {
        let mut buf = packet.0;
        match get_uint_lenenc(&mut buf) {
            Ok(columns) => Ok(self.columns_left(columns)),
            Err(e) => Err(Error::Protocol(e)),
        }
    }

    fn columns_left(&self, left: u64) -> (r: Draining)
        ensures
            r == after_columns(left as nat, self.capabilities),
            r.wf(),
    {
        if left > 0 {
            Draining::Columns { left }
        } else if self.maybe_recv_eof() {
            Draining::ColumnsEnd
        } else {
            Draining::Response
        }
    }

    /// Whether an EOF packet comes behind the column definitions.
    pub fn maybe_recv_eof(&self) -> (r: bool)
        ensures
            r == !self.capabilities.has(DEPRECATE_EOF),
            r == ((self.capabilities.bits >> 24) & 1 == 0),
    {
        proof {
            law_capabilities_are_bits(self.capabilities);
            let bits = self.capabilities.bits;
            assert((bits >> 24) & 1 == 0 || (bits >> 24) & 1 == 1) by (bit_vector);
        }
        !self.capabilities.contains(DEPRECATE_EOF)
    }

    /// Puts the first packet of a command in the write buffer. `payload` is the
    /// command's encoding, or what its encoder failed with.
    pub fn send_packet(&mut self, payload: Result<Vec<u8>, Error>) -> (r: Result<(), Error>)
        ensures
            *final(self) == (MySqlStream {
                socket: final(self).socket,
                sequence_id: final(self).sequence_id,
                ..*old(self)
            }),
            final(self).socket.socket == old(self).socket.socket,
            match payload {
                Ok(p) => r is Ok && final(self).socket.write_buf@ == old(self).socket.write_buf@
                    + frames(p@, 0) && final(self).sequence_id == id_after(p@.len(), 0),
                Err(e) => r == Err::<(), Error>(e) && final(self).socket == old(self).socket
                    && final(self).sequence_id == 0,
            },
            payload matches Ok(p) ==> (final(self).socket.write_buf@, final(self).sequence_id)
                == written(old(self).socket.write_buf@, 0, p@),
    {
        self.sequence_id = 0;
        self.write_packet(payload)
    }

    /// Puts a packet in the write buffer. `payload` is the packet's encoding, or
    /// what its encoder failed with.
    pub fn write_packet(&mut self, payload: Result<Vec<u8>, Error>) -> (r: Result<(), Error>)
        ensures
            *final(self) == (MySqlStream {
                socket: final(self).socket,
                sequence_id: final(self).sequence_id,
                ..*old(self)
            }),
            final(self).socket.socket == old(self).socket.socket,
            match payload {
                Ok(p) => r is Ok && final(self).socket.write_buf@ == old(self).socket.write_buf@
                    + frames(p@, old(self).sequence_id) && final(self).sequence_id == id_after(
                    p@.len(),
                    old(self).sequence_id,
                ),
                Err(e) => r == Err::<(), Error>(e) && *final(self) == *old(self),
            },
            payload matches Ok(p) ==> (final(self).socket.write_buf@, final(self).sequence_id)
                == written(old(self).socket.write_buf@, old(self).sequence_id, p@),
    {
        match payload {
            Ok(p) => {
                self.socket.write_with(p.as_slice(), &mut self.sequence_id);
                Ok(())
            },
            Err(e) => Err(e),
        }
    }

    /// Takes in the four bytes ahead of a packet. Returns how many bytes the packet
    /// has, which are to be read next.
    pub fn recv_packet_part(&mut self, header: Bytes) -> (r: usize)
        requires
            bytes_of(header).len() >= 4,
        ensures
            r == le_nat(bytes_of(header).take(3)),
            r < 0x100_0000,
            *final(self) == (MySqlStream {
                sequence_id: next_id(bytes_of(header)[3]),
                ..*old(self)
            }),
            (r as nat, final(self).sequence_id) == packet_header(bytes_of(header)),
    {
        let mut header = header;
        proof {
            lemma_le_nat_3(bytes_of(header).take(3));
        }
        let packet_size: usize = get_uint_le(&mut header, 3) as usize;
        let sequence_id: u8 = get_u8(&mut header);
        self.sequence_id = sequence_id.wrapping_add(1);
        packet_size
    }

    /// Takes in the payload of a packet. An error packet answers the oldest request,
    /// which is awaited no longer.
    pub fn recv_packet(&mut self, payload: Bytes) -> (r: Result<Packet, Error>)
        ensures
            ({
                let s = bytes_of(payload);
                if s.len() == 0 {
                    &&& r == Err::<Packet, Error>(Error::Protocol(ProtocolError::PacketEmpty))
                    &&& *final(self) == *old(self)
                } else if s[0] == 0xff {
                    &&& r matches Err(e)
                    &&& e@ == (match ErrPacket::decoded(s, old(self).capabilities) {
                        Ok(p) => ErrorView::Database(p),
                        Err(e) => ErrorView::Protocol(e),
                    })
                    &&& final(self).waiting@ == popped(old(self).waiting@)
                    &&& *final(self) == (MySqlStream {
                        waiting: final(self).waiting,
                        ..*old(self)
                    })
                } else {
                    &&& r == Ok::<Packet, Error>(Packet(payload))
                    &&& *final(self) == *old(self)
                }
            }),
            (
                final(self).waiting@,
                match r {
                    Ok(packet) => Ok::<Seq<u8>, ErrorView>(packet@),
                    Err(e) => Err(e@),
                },
            ) == packet_received(old(self).waiting@, old(self).capabilities, bytes_of(payload)),
    {
        let slice = as_slice(&payload);
        if slice.len() == 0 {
            return Err(Error::Protocol(ProtocolError::PacketEmpty));
        }
        if slice[0] == 0xff {
            let _ = self.waiting.pop_front();
            assert(self.waiting@ == popped(old(self).waiting@));
            return match ErrPacket::decode_with(payload, self.capabilities) {
                Ok(packet) => Err(Error::Database(packet)),
                Err(e) => Err(Error::Protocol(e)),
            };
        }
        Ok(Packet(payload))
    }

    /// Takes in a packet for a response. Returns nothing where another packet has
    /// to be received.
    pub fn recv<T: ProtocolDecode>(&self, state: &mut Receiving, packet: Packet) -> (r: Result<
        Option<T>,
        Error,
    >)
        ensures
            match recv_step::<T>(old(state).skipped as nat, self.capabilities, packet@) {
                Ok(t) => r == Ok::<Option<T>, Error>(t) && final(state).skipped == old(
                    state,
                ).skipped + (if t is None {
                    1int
                } else {
                    0int
                }),
                Err(e) => r == Err::<Option<T>, Error>(Error::Protocol(e)) && *final(state)
                    == *old(state),
            },
            forall|rest: Seq<Seq<u8>>|
                #[trigger] recv_run::<T>(
                    old(state).skipped as nat,
                    self.capabilities,
                    seq![packet@] + rest,
                ) == (match r {
                    Ok(None) => recv_run::<T>(
                        final(state).skipped as nat,
                        self.capabilities,
                        rest,
                    ),
                    Ok(t) => Ok(t),
                    Err(e) => Err(e->Protocol_0),
                }),
    {
        proof {
            let skipped = state.skipped as nat;
            assert forall|rest: Seq<Seq<u8>>| true implies #[trigger] recv_run::<T>(
                skipped,
                self.capabilities,
                seq![packet@] + rest,
            ) == (match recv_step::<T>(skipped, self.capabilities, packet@) {
                Ok(None) => recv_run::<T>(skipped + 1, self.capabilities, rest),
                other => other,
            }) by {
                law_packets_are_received_in_turn::<T>(skipped, self.capabilities, packet@, rest);
            }
        }
        if T::passes_over() {
            self.recv_late(state, packet)
        } else {
            match packet.decode_with::<T>(self.capabilities) {
                Ok(t) => Ok(Some(t)),
                Err(e) => Err(Error::Protocol(e)),
            }
        }
    }

    /// Takes in a packet for a response that some servers send unreadable packets
    /// ahead of. Placeholders and packets that cannot be read are passed over, but
    /// not once [`MAX_SKIPPED`] packets were.
    pub fn recv_late<T: ProtocolDecode>(&self, state: &mut Receiving, packet: Packet) -> (r: Result<
        Option<T>,
        Error,
    >)
        ensures
            match late_step::<T>(old(state).skipped as nat, self.capabilities, packet@) {
                Ok(t) => r == Ok::<Option<T>, Error>(t) && final(state).skipped == old(
                    state,
                ).skipped + (if t is None {
                    1int
                } else {
                    0int
                }),
                Err(e) => r == Err::<Option<T>, Error>(Error::Protocol(e)) && *final(state)
                    == *old(state),
            },
    {
        let slice = as_slice(&packet.0);
        let placeholder: bool = slice.len() == 7 && slice[0] == 0x00;
        if !placeholder {
            if let Ok(t) = packet.decode_with::<T>(self.capabilities) {
                return Ok(Some(t));
            }
        }
        if state.skipped >= MAX_SKIPPED {
            return Err(
                Error::Protocol(ProtocolError::TooManyInvalidPackets { skipped: state.skipped }),
            );
        }
        state.skipped = state.skipped + 1;
        Ok(None)
    }
}

impl<S> Deref for MySqlStream<S> {
    type Target = BufferedSocket<S>;

    /// The socket below the stream.
    fn deref(&self) -> (r: &BufferedSocket<S>)
        ensures
            *r == self.socket,
    {
        &self.socket
    }
}

impl<S> DerefMut for MySqlStream<S> {
    /// The socket below the stream, to change it.
    fn deref_mut(&mut self) -> (r: &mut BufferedSocket<S>)
        ensures
            *r == old(self).socket,
            *final(self) == (MySqlStream { socket: *final(r), ..*old(self) }),
    {
        &mut self.socket
    }
}

impl<S: Socket> MySqlStream<S> {
    /// Hides the type of the socket.
    pub fn boxed_socket(self) -> (r: MySqlStream)
        ensures
            r.socket.socket == boxed_of(self.socket.socket),
            r.socket.write_buf == self.socket.write_buf,
            r.server_version == self.server_version,
            r.capabilities == self.capabilities,
            r.sequence_id == self.sequence_id,
            r.waiting == self.waiting,
            r.charset == self.charset,
            r.collation == self.collation,
            r.is_tls == self.is_tls,
    {
        MySqlStream {
            socket: self.socket.boxed(),
            server_version: self.server_version,
            capabilities: self.capabilities,
            sequence_id: self.sequence_id,
            waiting: self.waiting,
            charset: self.charset,
            collation: self.collation,
            is_tls: self.is_tls,
        }
    }
}

/// Whether a client asks for a connection to a database or not, it asks for all that
/// this library makes use of, and names a database only where it has one.
pub proof fn law_client_capabilities(with_database: bool)
    ensures
        client_capabilities(with_database).has(PROTOCOL_41),
        client_capabilities(with_database).has(IGNORE_SPACE),
        client_capabilities(with_database).has(DEPRECATE_EOF),
        client_capabilities(with_database).has(FOUND_ROWS),
        client_capabilities(with_database).has(TRANSACTIONS),
        client_capabilities(with_database).has(SECURE_CONNECTION),
        client_capabilities(with_database).has(PLUGIN_AUTH_LENENC_DATA),
        client_capabilities(with_database).has(MULTI_STATEMENTS),
        client_capabilities(with_database).has(MULTI_RESULTS),
        client_capabilities(with_database).has(PLUGIN_AUTH),
        client_capabilities(with_database).has(PS_MULTI_RESULTS),
        client_capabilities(with_database).has(SSL),
        client_capabilities(with_database).has(CONNECT_WITH_DB) == with_database,
{
    let all = client_capabilities(with_database).bits;
    assert(all & PROTOCOL_41 == PROTOCOL_41 && all & IGNORE_SPACE == IGNORE_SPACE && all
        & DEPRECATE_EOF == DEPRECATE_EOF && all & FOUND_ROWS == FOUND_ROWS && all & TRANSACTIONS
        == TRANSACTIONS && all & SECURE_CONNECTION == SECURE_CONNECTION && all
        & PLUGIN_AUTH_LENENC_DATA == PLUGIN_AUTH_LENENC_DATA && all & MULTI_STATEMENTS
        == MULTI_STATEMENTS && all & MULTI_RESULTS == MULTI_RESULTS && all & PLUGIN_AUTH
        == PLUGIN_AUTH && all & PS_MULTI_RESULTS == PS_MULTI_RESULTS && all & SSL == SSL && (all
        & CONNECT_WITH_DB == CONNECT_WITH_DB) == with_database) by (bit_vector)
        requires
            all == ({
                let bits = PROTOCOL_41 | IGNORE_SPACE | DEPRECATE_EOF | FOUND_ROWS | TRANSACTIONS
                    | SECURE_CONNECTION | PLUGIN_AUTH_LENENC_DATA | MULTI_STATEMENTS
                    | MULTI_RESULTS | PLUGIN_AUTH | PS_MULTI_RESULTS | SSL;
                if with_database {
                    bits | CONNECT_WITH_DB
                } else {
                    bits
                }
            }),
    ;
}

/// The bits that a client sets are these and no others; a database sets one more.
pub proof fn law_client_capabilities_bit_for_bit()
    ensures
        client_capabilities(false).bits == 0x12f_ab02,
        client_capabilities(true).bits == 0x12f_ab0a,
{
    assert(PROTOCOL_41 | IGNORE_SPACE | DEPRECATE_EOF | FOUND_ROWS | TRANSACTIONS
        | SECURE_CONNECTION | PLUGIN_AUTH_LENENC_DATA | MULTI_STATEMENTS | MULTI_RESULTS
        | PLUGIN_AUTH | PS_MULTI_RESULTS | SSL == 0x12f_ab02) by (bit_vector);
    assert(0x12f_ab02u64 | CONNECT_WITH_DB == 0x12f_ab0a) by (bit_vector);
}

} // verus!
