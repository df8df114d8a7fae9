//! The MySQL client protocol stream: packet framing, the decoding of server
//! responses, and the decisions a connection takes between reads and writes.
//!
//! Nothing here performs I/O. A driver reads and writes the socket, hands what
//! arrived to a [`stream::MySqlStream`], and does what the stream answers.
pub mod buf;
pub mod capabilities;
pub mod error;
pub mod frame;
pub mod packet;
pub mod prepare_ok;
pub mod receive;
pub mod socket;
pub mod stream;
pub mod text;
pub mod wait;
