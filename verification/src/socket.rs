//! The transport below a stream.
use crate::frame::{frames, id_after, write_frames, written};
use vstd::prelude::*;
use vstd::slice::*;

verus! {

/// Why a socket did not read or write.
#[derive(Debug)]
pub enum SocketError {
    /// Nothing can be read or written at the moment.
    WouldBlock,
    /// The transport failed.
    Failed(String),
}

/// A call of a socket's method, with what it was asked and what it answered.
#[verifier::ext_equal]
pub enum Exchange {
    Read { max: usize, bytes: Result<Vec<u8>, SocketError> },
    Write { data: Seq<u8>, taken: Result<usize, SocketError> },
}

/// A byte transport, such as a TCP connection.
pub trait Socket: 'static {
    /// The calls that were made of the socket, oldest first. What this default says
    /// meets no contract below, so an implementation that is verified gives its own.
    open spec fn exchanges(&self) -> Seq<Exchange> {
        arbitrary()
    }

    /// Reads up to `max` bytes. An empty answer means that the peer has closed.
    fn try_read(&mut self, max: usize) -> (r: Result<Vec<u8>, SocketError>)
        ensures
            final(self).exchanges() == old(self).exchanges().push(
                Exchange::Read { max, bytes: r },
            ),
    ;

    /// Writes the front of `data`. Returns how many bytes were taken.
    fn try_write(&mut self, data: &[u8]) -> (r: Result<usize, SocketError>)
        ensures
            final(self).exchanges() == old(self).exchanges().push(
                Exchange::Write { data: data@, taken: r },
            ),
    ;
}

/// Each call is one call of the socket inside, with the same argument and the same
/// answer.
impl Socket for Box<dyn Socket> {
    open spec fn exchanges(&self) -> Seq<Exchange> {
        (**self).exchanges()
    }

    fn try_read(&mut self, max: usize) -> (r: Result<Vec<u8>, SocketError>) {
        (**self).try_read(max)
    }

    fn try_write(&mut self, data: &[u8]) -> (r: Result<usize, SocketError>) {
        (**self).try_write(data)
    }
}

/// A socket, with the bytes that still have to be written to it.
pub struct BufferedSocket<S> {
    pub socket: S,
    pub write_buf: Vec<u8>,
}

/// A socket behind a pointer that hides its type.
pub open spec fn boxed_of<S: Socket>(socket: S) -> Box<dyn Socket> {
    Box::new(socket)
}

impl<S> BufferedSocket<S> {
    /// A socket with nothing to write.
    pub fn new(socket: S) -> (r: BufferedSocket<S>)
        ensures
            r.socket == socket,
            r.write_buf@ == Seq::<u8>::empty(),
    {
        BufferedSocket { socket, write_buf: Vec::new() }
    }

    /// The bytes that still have to be written.
    pub fn write_buffer(&self) -> (r: &[u8])
        ensures
            r@ == self.write_buf@,
    {
        self.write_buf.as_slice()
    }

    /// Drops the first `n` bytes of the write buffer, which were written.
    pub fn consume(&mut self, n: usize)
        requires
            n <= old(self).write_buf@.len(),
        ensures
            final(self).socket == old(self).socket,
            final(self).write_buf@ == old(self).write_buf@.skip(n as int),
    {
        let rest = self.write_buf.split_off(n);
        assert(rest@ == old(self).write_buf@.skip(n as int));
        self.write_buf = rest;
    }

    /// Appends a framed payload to the write buffer, and moves the sequence id on.
    pub fn write_with(&mut self, payload: &[u8], sequence_id: &mut u8)
        ensures
            final(self).socket == old(self).socket,
            final(self).write_buf@ == old(self).write_buf@ + frames(payload@, *old(sequence_id)),
            *final(sequence_id) == id_after(payload@.len(), *old(sequence_id)),
            (final(self).write_buf@, *final(sequence_id)) == written(
                old(self).write_buf@,
                *old(sequence_id),
                payload@,
            ),
    {
        *sequence_id = write_frames(&mut self.write_buf, payload, *sequence_id);
    }
}

impl<S: Socket> BufferedSocket<S> {
    /// Hides the type of the socket.
    pub fn boxed(self) -> (r: BufferedSocket<Box<dyn Socket>>)
        ensures
            r.socket == boxed_of(self.socket),
            r.write_buf == self.write_buf,
    {
        let socket: Box<dyn Socket> = Box::new(self.socket);
        BufferedSocket { socket, write_buf: self.write_buf }
    }
}

} // verus!
