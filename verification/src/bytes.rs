//! Big-endian integers as byte sequences.
use vstd::prelude::*;
use byteorder::{BigEndian, ByteOrder};

verus! {

/// `256` raised to the power `n`.
pub open spec fn pow256(n: nat) -> nat
    decreases n,
{
    if n == 0 {
        1
    } else {
        256 * pow256((n - 1) as nat)
    }
}

/// The value of `s` read as an unsigned big-endian integer.
pub open spec fn be_value(s: Seq<u8>) -> nat
    decreases s.len(),
{
    if s.len() == 0 {
        0
    } else {
        (be_value(s.drop_last()) * 256 + s.last()) as nat
    }
}

/// The `n` low-order bytes of `x`, most significant first.
pub open spec fn be_bytes(x: nat, n: nat) -> Seq<u8>
    decreases n,
{
    if n == 0 {
        Seq::empty()
    } else {
        be_bytes(x / 256, (n - 1) as nat).push((x % 256) as u8)
    }
}

/// Writing `n` bytes always gives `n` bytes.
pub proof fn lemma_be_bytes_len(x: nat, n: nat)
    ensures
        be_bytes(x, n).len() == n,
    decreases n,
{
    if n > 0 {
        lemma_be_bytes_len(x / 256, (n - 1) as nat);
    }
}

/// A value that fits in `n` bytes is read back from its `n`-byte encoding.
pub proof fn lemma_be_roundtrip(x: nat, n: nat)
    requires
        x < pow256(n),
    ensures
        be_value(be_bytes(x, n)) == x,
    decreases n,
{
    if n > 0 {
        lemma_be_roundtrip(x / 256, (n - 1) as nat);
        let s = be_bytes(x, n);
        assert(s.drop_last() =~= be_bytes(x / 256, (n - 1) as nat));
    }
}

/// Any byte sequence is the encoding of its own value.
pub proof fn lemma_be_value_bytes(s: Seq<u8>)
    ensures
        be_value(s) < pow256(s.len()),
        be_bytes(be_value(s), s.len()) =~= s,
    decreases s.len(),
{
    if s.len() > 0 {
        lemma_be_value_bytes(s.drop_last());
        let v = be_value(s);
        assert(v / 256 == be_value(s.drop_last()));
        assert(v % 256 == s.last());
        assert(s =~= s.drop_last().push(s.last()));
    }
}

/// Powers of 256 are positive.
pub proof fn lemma_pow256_pos(n: nat)
    ensures
        pow256(n) > 0,
    decreases n,
{
    if n > 0 {
        lemma_pow256_pos((n - 1) as nat);
    }
}

/// Only the value modulo `256^n` shows in `n` bytes.
pub proof fn lemma_be_bytes_mod(x: nat, n: nat)
    ensures
        be_bytes(x % pow256(n), n) == be_bytes(x, n),
    decreases n,
{
    if n > 0 {
        let p = pow256((n - 1) as nat);
        lemma_pow256_pos((n - 1) as nat);
        assert(pow256(n) == 256 * p);
        vstd::arithmetic::div_mod::lemma_mod_breakdown(x as int, 256, p as int);
        let y = x % pow256(n);
        assert(y == 256 * ((x / 256) % p) + x % 256);
        assert(y / 256 == (x / 256) % p);
        assert(y % 256 == x % 256);
        lemma_be_bytes_mod(x / 256, (n - 1) as nat);
    }
}

/// `pow256` at the widths used by the binary format.
pub proof fn lemma_pow256_values()
    ensures
        pow256(1) == 0x100,
        pow256(4) == 0x1_0000_0000,
        pow256(8) == 0x1_0000_0000_0000_0000,
{
    reveal_with_fuel(pow256, 9);
}

/// Reads the four bytes of `buf` at `off` as a big-endian `u32`
/// (`byteorder::BigEndian::read_u32` on `buf[off..]`; it panics when fewer
/// than four bytes are there).
#[verifier::external_body]
pub(crate) fn read_be_u32_at(buf: &[u8], off: usize) -> (r: u32)
    requires
        off + 4 <= buf@.len(),
    ensures
        r == be_value(buf@.subrange(off as int, off + 4)),
{
    BigEndian::read_u32(&buf[off..])
}

/// Reads the eight bytes of `buf` at `off` as a big-endian `u64`
/// (`byteorder::BigEndian::read_u64` on `buf[off..]`; it panics when fewer
/// than eight bytes are there).
#[verifier::external_body]
pub(crate) fn read_be_u64_at(buf: &[u8], off: usize) -> (r: u64)
    requires
        off + 8 <= buf@.len(),
    ensures
        r == be_value(buf@.subrange(off as int, off + 8)),
{
    BigEndian::read_u64(&buf[off..])
}

/// Reads the eight bytes of `buf` at `off` as a big-endian two's-complement
/// `i64` (`byteorder::BigEndian::read_i64` on `buf[off..]`, which reads a
/// `u64` and reinterprets its bits; it panics when fewer than eight bytes are
/// there).
#[verifier::external_body]
pub(crate) fn read_be_i64_at(buf: &[u8], off: usize) -> (r: i64)
    requires
        off + 8 <= buf@.len(),
    ensures
        r == (be_value(buf@.subrange(off as int, off + 8)) as u64) as i64,
{
    BigEndian::read_i64(&buf[off..])
}

/// Appends the `n` low-order bytes of `x` to `out`, most significant first.
pub fn push_be(out: &mut Vec<u8>, x: u64, n: usize)
    requires
        n <= 8,
    ensures
        final(out)@ == old(out)@ + be_bytes(x as nat, n as nat),
    decreases n,
{
    if n == 0 {
        assert(old(out)@ + be_bytes(x as nat, 0) =~= old(out)@);
    } else {
        push_be(out, x / 256, n - 1);
        out.push((x % 256) as u8);
        assert(be_bytes(x as nat, n as nat) == be_bytes((x / 256) as nat, (n - 1) as nat).push(
            (x % 256) as u8,
        ));
        assert(out@ =~= old(out)@ + be_bytes(x as nat, n as nat));
    }
}

} // verus!
