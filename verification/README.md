# mysql_stream

The client side of a MySQL connection, as a verified library.

`src/` frames packets, reads the responses of the server, and decides what a
connection does next. It performs no I/O: `stream::MySqlStream` is told what
arrived and answers with what to do. Every function there but the wrappers around
`bytes` and `String::from_utf8` is verified with Verus.

| module | holds |
| --- | --- |
| `buf` | reading from `bytes::Bytes`; what is trusted of that crate |
| `text` | decimal and hexadecimal text, `hex_dump`, `escape_string` |
| `error` | protocol errors, with their messages, and error packets |
| `capabilities` | capability and status flags |
| `packet` | OK, EOF and ERR packets |
| `prepare_ok` | the response to a prepared statement |
| `frame` | packets on the wire |
| `socket` | the transport, and the write buffer above it |
| `wait` | skipping responses that nobody read |
| `receive` | awaiting a response behind unreadable packets |
| `stream` | the connection |

Proof functions whose names begin with `law_` state what holds of the library as a
whole.

`app/` drives a stream over a socket, asynchronously.
