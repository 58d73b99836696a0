//! Base-128 variable-length integers: seven bits of the number per byte,
//! least significant group first, the top bit of a byte set while more bytes
//! follow.
//!
//! The bytes are produced and read by the `integer-encoding` crate. This
//! module says what those two calls do and proves that reading undoes writing.

use integer_encoding::VarInt;
use vstd::prelude::*;

verus! {

/// The encoding of `n`.
pub open spec fn varint_bytes(n: nat) -> Seq<u8>
    decreases n,
{
    if n < 128 {
        seq![n as u8]
    } else {
        seq![(128 + n % 128) as u8] + varint_bytes(n / 128)
    }
}

/// Index of the first byte below 128 among the first `limit` bytes of `s`.
pub open spec fn terminator(s: Seq<u8>, limit: nat) -> Option<nat>
    decreases limit,
{
    if limit == 0 || s.len() == 0 {
        None
    } else if s[0] < 128 {
        Some(0)
    } else {
        match terminator(s.skip(1), (limit - 1) as nat) {
            Some(k) => Some(k + 1),
            None => None,
        }
    }
}

/// The number whose base-128 digits, least significant first, are the low
/// seven bits of the first `count` bytes of `s`.
pub open spec fn digits_value(s: Seq<u8>, count: nat) -> nat
    decreases count,
{
    if count == 0 || s.len() == 0 {
        0
    } else {
        (s[0] % 128) as nat + 128 * digits_value(s.skip(1), (count - 1) as nat)
    }
}

/// What reading one integer from the front of `s` gives: the number and how
/// many bytes it took.
///
/// At most ten bytes are looked at. The read fails where none of them ends
/// the integer. Bits beyond the 64th are dropped.
pub open spec fn varint_decode(s: Seq<u8>) -> Option<(u64, usize)> {
    match terminator(s, 10) {
        Some(k) => Some(
            ((digits_value(s, k + 1) % 0x1_0000_0000_0000_0000) as u64, (k + 1) as usize),
        ),
        None => None,
    }
}

/// Calls `VarInt::encode_var_vec` of `integer-encoding` on a `u64`. The
/// contract claims that the vector it returns holds the base-128 groups of
/// `value`, least significant first, each but the last with its top bit set.
#[verifier::external_body]
pub(crate) fn encode_var(value: u64) -> (bytes: Vec<u8>)
    ensures
        bytes@ == varint_bytes(value as nat),
{
    value.encode_var_vec()
}

/// Calls `VarInt::decode_var` of `integer-encoding` for `u64`. The contract
/// claims that it reads up to the first byte below 128, gives up after ten
/// bytes or at the end of `src`, joins the low seven bits of the bytes read
/// into a number modulo 2^64, and reports how many bytes it read.
#[verifier::external_body]
pub(crate) fn decode_var(src: &[u8]) -> (read: Option<(u64, usize)>)
    ensures
        read == varint_decode(src@),
{
    u64::decode_var(src)
}

/// 128 to the power `k`.
pub open spec fn radix_pow(k: nat) -> nat
    decreases k,
{
    if k == 0 {
        1
    } else {
        128 * radix_pow((k - 1) as nat)
    }
}

/// A number below `128^k` is encoded in at most `k` bytes, and in at least one.
pub proof fn lemma_varint_len(n: nat, k: nat)
    requires
        k >= 1,
        n < radix_pow(k),
    ensures
        1 <= varint_bytes(n).len() <= k,
    decreases n,
{
    if n >= 128 {
        assert(radix_pow(1) == 128) by {
            reveal_with_fuel(radix_pow, 2);
        }
        assert(k >= 2);
        assert(radix_pow(k) == 128 * radix_pow((k - 1) as nat));
        assert(n / 128 < radix_pow((k - 1) as nat)) by (nonlinear_arith)
            requires
                n < 128 * radix_pow((k - 1) as nat),
        ;
        lemma_varint_len(n / 128, (k - 1) as nat);
    }
}

/// A `u64` is encoded in one to ten bytes.
pub proof fn lemma_varint_len_u64(value: u64)
    ensures
        1 <= varint_bytes(value as nat).len() <= 10,
{
    assert(radix_pow(10) == 0x40_0000_0000_0000_0000) by {
        reveal_with_fuel(radix_pow, 11);
    }
    lemma_varint_len(value as nat, 10);
}

/// Every byte of an encoding but the last has its top bit set, and the last
/// has not.
pub proof fn lemma_varint_shape(n: nat)
    ensures
        varint_bytes(n).len() >= 1,
        varint_bytes(n).last() < 128,
        forall|i: int| 0 <= i < varint_bytes(n).len() - 1 ==> varint_bytes(n)[i] >= 128,
    decreases n,
{
    if n >= 128 {
        lemma_varint_shape(n / 128);
        let tail = varint_bytes(n / 128);
        let all = varint_bytes(n);
        assert(all == seq![(128 + n % 128) as u8] + tail);
        assert forall|i: int| 0 <= i < all.len() - 1 implies all[i] >= 128 by {
            if i > 0 {
                assert(all[i] == tail[i - 1]);
            }
        }
        assert(all.last() == tail.last());
    }
}

/// Within the limit, the terminator of an encoding followed by anything is
/// the encoding's last byte, and the digits up to it spell the number.
pub proof fn lemma_varint_scan(n: nat, rest: Seq<u8>, limit: nat)
    requires
        varint_bytes(n).len() <= limit,
    ensures
        terminator(varint_bytes(n) + rest, limit) == Some((varint_bytes(n).len() - 1) as nat),
        digits_value(varint_bytes(n) + rest, varint_bytes(n).len()) == n,
    decreases n,
{
    let all = varint_bytes(n) + rest;
    if n < 128 {
        assert(all[0] == n as u8);
        assert(digits_value(all.skip(1), 0) == 0);
    } else {
        let tail = varint_bytes(n / 128);
        lemma_varint_shape(n / 128);
        assert(all[0] == (128 + n % 128) as u8);
        assert(all.skip(1) =~= tail + rest);
        lemma_varint_scan(n / 128, rest, (limit - 1) as nat);
        assert(all[0] % 128 == n % 128);
        assert(n % 128 + 128 * (n / 128) == n);
    }
}

/// Reading undoes writing: an encoded `u64`, whatever follows it, is read
/// back whole, and the read stops where the encoding ends.
pub proof fn lemma_varint_roundtrip(value: u64, rest: Seq<u8>)
    ensures
        varint_decode(varint_bytes(value as nat) + rest) == Some(
            (value, varint_bytes(value as nat).len() as usize),
        ),
{
    lemma_varint_len_u64(value);
    lemma_varint_scan(value as nat, rest, 10);
}

/// A read that succeeds ends inside the input and within the limit.
pub proof fn lemma_terminator_bound(s: Seq<u8>, limit: nat)
    ensures
        match terminator(s, limit) {
            Some(k) => k < s.len() && k < limit,
            None => true,
        },
    decreases limit,
{
    if limit > 0 && s.len() > 0 && s[0] >= 128 {
        lemma_terminator_bound(s.skip(1), (limit - 1) as nat);
    }
}

/// A read takes at least one byte and no more than the input holds, nor
/// more than ten.
pub proof fn lemma_varint_decode_bound(s: Seq<u8>)
    ensures
        match varint_decode(s) {
            Some((_, taken)) => 1 <= taken <= s.len() && taken <= 10,
            None => true,
        },
{
    lemma_terminator_bound(s, 10);
}

/// An encoding cut short cannot be read: no proper prefix of it holds a
/// terminator.
pub proof fn lemma_varint_prefix(n: nat, cut: int, limit: nat)
    requires
        0 <= cut < varint_bytes(n).len(),
    ensures
        terminator(varint_bytes(n).take(cut), limit) is None,
    decreases cut, limit,
{
    let all = varint_bytes(n);
    let head = all.take(cut);
    if cut > 0 && limit > 0 {
        lemma_varint_shape(n);
        assert(head[0] == all[0]);
        assert(n >= 128);
        assert(head.skip(1) =~= varint_bytes(n / 128).take(cut - 1));
        lemma_varint_prefix(n / 128, cut - 1, (limit - 1) as nat);
    }
}

} // verus!
