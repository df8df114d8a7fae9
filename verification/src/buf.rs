//! Reading from [`Bytes`], the shared byte buffer that packets arrive in.
use bytes::{Buf, Bytes};
use vstd::arithmetic::power::*;
use vstd::prelude::*;

verus! {

/// `bytes::Bytes`: a cheaply cloned, immutable run of bytes with a read position.
#[verifier::external_type_specification]
#[verifier::external_body]
pub struct ExBytes(Bytes);

/// The bytes that a buffer still holds, from its read position to its end.
pub uninterp spec fn bytes_of(buf: Bytes) -> Seq<u8>;

/// The number that a sequence of bytes denotes, least significant byte first.
pub open spec fn le_nat(s: Seq<u8>) -> nat
    decreases s.len(),
{
    if s.len() == 0 {
        0
    } else {
        s[0] as nat + 256 * le_nat(s.skip(1))
    }
}

/// The three bytes that denote `n`, least significant byte first.
pub open spec fn u24_bytes(n: nat) -> Seq<u8> {
    seq![(n % 256) as u8, (n / 256 % 256) as u8, (n / 65536 % 256) as u8]
}

/// `<bytes::Bytes as Deref>::deref`: the remaining bytes, as a slice.
#[verifier::external_body]
pub(crate) fn as_slice(buf: &Bytes) -> (r: &[u8])
    ensures
        r@ == bytes_of(*buf),
{
    core::ops::Deref::deref(buf)
}

/// `bytes::Bytes::copy_from_slice`: a buffer that holds a copy of the slice.
pub assume_specification[ Bytes::copy_from_slice ](data: &[u8]) -> (r: Bytes)
    ensures
        bytes_of(r) == data@,
;

/// `<bytes::Bytes as Buf>::advance`: drops the first `cnt` bytes. It panics when
/// fewer remain.
#[verifier::external_body]
pub(crate) fn advance(buf: &mut Bytes, cnt: usize)
    requires
        cnt <= bytes_of(*old(buf)).len(),
    ensures
        bytes_of(*final(buf)) == bytes_of(*old(buf)).skip(cnt as int),
{
    buf.advance(cnt)
}

/// `<bytes::Bytes as Buf>::get_u8`: takes the first byte. It panics when none
/// remains.
#[verifier::external_body]
pub(crate) fn get_u8(buf: &mut Bytes) -> (r: u8)
    requires
        1 <= bytes_of(*old(buf)).len(),
    ensures
        r == bytes_of(*old(buf))[0],
        bytes_of(*final(buf)) == bytes_of(*old(buf)).skip(1),
{
    buf.get_u8()
}

/// `<bytes::Bytes as Buf>::get_u16_le`: takes two bytes as a little-endian
/// number. It panics when fewer remain.
#[verifier::external_body]
pub(crate) fn get_u16_le(buf: &mut Bytes) -> (r: u16)
    requires
        2 <= bytes_of(*old(buf)).len(),
    ensures
        r == le_nat(bytes_of(*old(buf)).take(2)),
        bytes_of(*final(buf)) == bytes_of(*old(buf)).skip(2),
{
    buf.get_u16_le()
}

/// `<bytes::Bytes as Buf>::get_u32_le`: takes four bytes as a little-endian
/// number. It panics when fewer remain.
#[verifier::external_body]
pub(crate) fn get_u32_le(buf: &mut Bytes) -> (r: u32)
    requires
        4 <= bytes_of(*old(buf)).len(),
    ensures
        r == le_nat(bytes_of(*old(buf)).take(4)),
        bytes_of(*final(buf)) == bytes_of(*old(buf)).skip(4),
{
    buf.get_u32_le()
}

/// `<bytes::Bytes as Buf>::get_uint_le`: takes `nbytes` bytes as a little-endian
/// number. It panics when fewer remain, or when `nbytes` is greater than eight.
#[verifier::external_body]
pub(crate) fn get_uint_le(buf: &mut Bytes, nbytes: usize) -> (r: u64)
    requires
        nbytes <= 8,
        nbytes <= bytes_of(*old(buf)).len(),
    ensures
        r == le_nat(bytes_of(*old(buf)).take(nbytes as int)),
        bytes_of(*final(buf)) == bytes_of(*old(buf)).skip(nbytes as int),
{
    buf.get_uint_le(nbytes)
}

/// A little-endian number of three bytes, written out.
pub proof fn lemma_le_nat_3(s: Seq<u8>)
    requires
        s.len() == 3,
    ensures
        le_nat(s) == s[0] + 256 * s[1] + 65536 * s[2],
        le_nat(s) < 0x100_0000,
{
    reveal_with_fuel(le_nat, 4);
    assert(s.skip(1).skip(1) == s.skip(2));
    assert(s.skip(2).skip(1) == s.skip(3));
}

/// Three bytes are enough for a number below 2^24.
pub proof fn lemma_u24_bytes(n: nat)
    requires
        n < 0x100_0000,
    ensures
        le_nat(u24_bytes(n)) == n,
{
    lemma_le_nat_3(u24_bytes(n));
}

/// A number of `s.len()` bytes is below 256 to that power.
pub proof fn lemma_le_nat_bound(s: Seq<u8>)
    ensures
        le_nat(s) < pow(256, s.len()),
    decreases s.len(),
{
    if s.len() == 0 {
        lemma_pow0(256);
    } else {
        lemma_le_nat_bound(s.skip(1));
        reveal(pow);
        let p = pow(256, (s.len() - 1) as nat);
        assert(pow(256, s.len()) == 256 * p);
    }
}

/// The `k` bytes that denote `n`, least significant byte first.
pub open spec fn le_bytes(n: nat, k: nat) -> Seq<u8>
    decreases k,
{
    if k == 0 {
        Seq::empty()
    } else {
        seq![(n % 256) as u8] + le_bytes(n / 256, (k - 1) as nat)
    }
}

/// A number is read back from the bytes that denote it.
pub proof fn law_le_number_is_read_back(n: nat, k: nat)
    requires
        n < pow(256, k),
    ensures
        le_bytes(n, k).len() == k,
        le_nat(le_bytes(n, k)) == n,
    decreases k,
{
    if k == 0 {
        lemma_pow0(256);
    } else {
        reveal(pow);
        let p = pow(256, (k - 1) as nat);
        assert(pow(256, k) == 256 * p);
        law_le_number_is_read_back(n / 256, (k - 1) as nat);
        assert(le_bytes(n, k).skip(1) == le_bytes(n / 256, (k - 1) as nat));
    }
}

/// Each byte of a number weighs 256 times as much as the byte ahead of it.
pub proof fn law_le_number_weighs_its_bytes(b: u8, s: Seq<u8>)
    ensures
        le_nat(Seq::empty()) == 0,
        le_nat(seq![b] + s) == b + 256 * le_nat(s),
{
    assert((seq![b] + s).skip(1) == s);
}

/// A little-endian number of two bytes, written out.
pub proof fn lemma_le_nat_2(s: Seq<u8>)
    requires
        s.len() == 2,
    ensures
        le_nat(s) == s[0] + 256 * s[1],
{
    reveal_with_fuel(le_nat, 3);
    assert(s.skip(1).skip(1) == s.skip(2));
}

/// The powers of 256 that bound the numbers of the protocol.
pub proof fn lemma_pow_256()
    ensures
        pow(256, 1) == 0x100,
        pow(256, 2) == 0x1_0000,
        pow(256, 3) == 0x100_0000,
        pow(256, 4) == 0x1_0000_0000,
        pow(256, 8) == 0x1_0000_0000_0000_0000,
{
    reveal_with_fuel(pow, 9);
}

} // verus!
