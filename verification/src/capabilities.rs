//! Flag sets: what client and server can do, and how the server stands.
use vstd::prelude::*;

verus! {

/// The capability flags that client and server agree on in the handshake.
#[derive(Debug, Clone, Copy, PartialEq, Eq, Structural)]
pub struct Capabilities {
    pub bits: u64,
}

/// Report the number of matched rows instead of the number of changed rows.
pub const FOUND_ROWS: u64 = 0x2;

/// A database is named in the handshake.
pub const CONNECT_WITH_DB: u64 = 0x8;

/// Spaces are allowed before `(`.
pub const IGNORE_SPACE: u64 = 0x100;

/// The protocol of MySQL 4.1.
pub const PROTOCOL_41: u64 = 0x200;

/// The connection can be switched to TLS.
pub const SSL: u64 = 0x800;

/// The transaction state is reported.
pub const TRANSACTIONS: u64 = 0x2000;

/// The authentication of MySQL 4.1.
pub const SECURE_CONNECTION: u64 = 0x8000;

/// Several statements in one query.
pub const MULTI_STATEMENTS: u64 = 0x1_0000;

/// Several result sets for one query.
pub const MULTI_RESULTS: u64 = 0x2_0000;

/// Several result sets for one prepared statement.
pub const PS_MULTI_RESULTS: u64 = 0x4_0000;

/// Authentication plugins.
pub const PLUGIN_AUTH: u64 = 0x8_0000;

/// Authentication data with a length-encoded length.
pub const PLUGIN_AUTH_LENENC_DATA: u64 = 0x20_0000;

/// OK packets instead of EOF packets at the end of a result set.
pub const DEPRECATE_EOF: u64 = 0x100_0000;

impl Capabilities {
    /// Whether the flags in `flags` are all set.
    pub open spec fn has(self, flags: u64) -> bool {
        self.bits & flags == flags
    }

    /// Whether the flags in `flags` are all set.
    pub fn contains(self, flags: u64) -> (r: bool)
        ensures
            r == self.has(flags),
    {
        self.bits & flags == flags
    }
}

/// The state that the server reports at the end of a response.
#[derive(Debug, Clone, Copy, PartialEq, Eq, Structural)]
pub struct Status {
    pub bits: u16,
}

/// Another result set follows.
pub const SERVER_MORE_RESULTS_EXISTS: u16 = 0x8;

impl Status {
    /// Whether the flags in `flags` are all set.
    pub open spec fn has(self, flags: u16) -> bool {
        self.bits & flags == flags
    }

    /// Whether the flags in `flags` are all set.
    pub fn contains(self, flags: u16) -> (r: bool)
        ensures
            r == self.has(flags),
    {
        self.bits & flags == flags
    }
}

/// Each capability is one bit of the set, and is there exactly when that bit is.
pub proof fn law_capabilities_are_bits(c: Capabilities)
    ensures
        c.has(FOUND_ROWS) <==> (c.bits >> 1) & 1 == 1,
        c.has(CONNECT_WITH_DB) <==> (c.bits >> 3) & 1 == 1,
        c.has(IGNORE_SPACE) <==> (c.bits >> 8) & 1 == 1,
        c.has(PROTOCOL_41) <==> (c.bits >> 9) & 1 == 1,
        c.has(SSL) <==> (c.bits >> 11) & 1 == 1,
        c.has(TRANSACTIONS) <==> (c.bits >> 13) & 1 == 1,
        c.has(SECURE_CONNECTION) <==> (c.bits >> 15) & 1 == 1,
        c.has(MULTI_STATEMENTS) <==> (c.bits >> 16) & 1 == 1,
        c.has(MULTI_RESULTS) <==> (c.bits >> 17) & 1 == 1,
        c.has(PS_MULTI_RESULTS) <==> (c.bits >> 18) & 1 == 1,
        c.has(PLUGIN_AUTH) <==> (c.bits >> 19) & 1 == 1,
        c.has(PLUGIN_AUTH_LENENC_DATA) <==> (c.bits >> 21) & 1 == 1,
        c.has(DEPRECATE_EOF) <==> (c.bits >> 24) & 1 == 1,
{
    let b = c.bits;
    assert({
        &&& b & FOUND_ROWS == FOUND_ROWS <==> (b >> 1) & 1 == 1
        &&& b & CONNECT_WITH_DB == CONNECT_WITH_DB <==> (b >> 3) & 1 == 1
        &&& b & IGNORE_SPACE == IGNORE_SPACE <==> (b >> 8) & 1 == 1
        &&& b & PROTOCOL_41 == PROTOCOL_41 <==> (b >> 9) & 1 == 1
        &&& b & SSL == SSL <==> (b >> 11) & 1 == 1
        &&& b & TRANSACTIONS == TRANSACTIONS <==> (b >> 13) & 1 == 1
        &&& b & SECURE_CONNECTION == SECURE_CONNECTION <==> (b >> 15) & 1 == 1
        &&& b & MULTI_STATEMENTS == MULTI_STATEMENTS <==> (b >> 16) & 1 == 1
        &&& b & MULTI_RESULTS == MULTI_RESULTS <==> (b >> 17) & 1 == 1
        &&& b & PS_MULTI_RESULTS == PS_MULTI_RESULTS <==> (b >> 18) & 1 == 1
        &&& b & PLUGIN_AUTH == PLUGIN_AUTH <==> (b >> 19) & 1 == 1
        &&& b & PLUGIN_AUTH_LENENC_DATA == PLUGIN_AUTH_LENENC_DATA <==> (b >> 21) & 1 == 1
        &&& b & DEPRECATE_EOF == DEPRECATE_EOF <==> (b >> 24) & 1 == 1
    }) by (bit_vector);
}

/// A set holds a single flag when its bit is set, no flags always, and the flags of
/// two sets when it holds those of each.
pub proof fn law_capabilities_hold_flags_one_by_one(c: Capabilities, i: u64, a: u64, b: u64)
    requires
        i < 64,
    ensures
        c.has(1u64 << i) <==> (c.bits >> i) & 1 == 1,
        c.has(0),
        c.has(a | b) <==> c.has(a) && c.has(b),
{
    let x = c.bits;
    assert({
        &&& x & (1u64 << i) == (1u64 << i) <==> (x >> i) & 1 == 1
        &&& x & 0 == 0
        &&& x & (a | b) == (a | b) <==> x & a == a && x & b == b
    }) by (bit_vector)
        requires
            i < 64,
    ;
}

/// Whether more results follow is the fourth bit of a status, and a status holds
/// flags one by one.
pub proof fn law_status_flags_are_bits(status: Status, i: u16, a: u16, b: u16)
    requires
        i < 16,
    ensures
        status.has(SERVER_MORE_RESULTS_EXISTS) <==> (status.bits >> 3) & 1 == 1,
        status.has(1u16 << i) <==> (status.bits >> i) & 1 == 1,
        status.has(0),
        status.has(a | b) <==> status.has(a) && status.has(b),
{
    let x = status.bits;
    assert({
        &&& x & SERVER_MORE_RESULTS_EXISTS == SERVER_MORE_RESULTS_EXISTS <==> (x >> 3) & 1 == 1
        &&& x & (1u16 << i) == (1u16 << i) <==> (x >> i) & 1 == 1
        &&& x & 0 == 0
        &&& x & (a | b) == (a | b) <==> x & a == a && x & b == b
    }) by (bit_vector)
        requires
            i < 16,
    ;
}

} // verus!
