//! SCALE encoding of the values that the pallets hand to the oracle: fixed
//! width integers in little-endian order, byte arrays as they are, and
//! structures as the concatenation of their fields.
use vstd::prelude::*;
use crate::dispatch::AccountId;
use parity_scale_codec::{Decode, Encode};

verus! {

/// The little-endian bytes of a 64-bit integer.
pub open spec fn le_bytes(x: u64) -> Seq<u8> {
    seq![
        x as u8,
        (x >> 8u64) as u8,
        (x >> 16u64) as u8,
        (x >> 24u64) as u8,
        (x >> 32u64) as u8,
        (x >> 40u64) as u8,
        (x >> 48u64) as u8,
        (x >> 56u64) as u8,
    ]
}

/// The 64-bit integer whose little-endian bytes begin `b`.
pub open spec fn le_value(b: Seq<u8>) -> u64 {
    (b[0] as u64) | ((b[1] as u64) << 8u64) | ((b[2] as u64) << 16u64) | ((b[3] as u64) << 24u64)
        | ((b[4] as u64) << 32u64) | ((b[5] as u64) << 40u64) | ((b[6] as u64) << 48u64) | ((
    b[7] as u64) << 56u64)
}

/// SCALE encoding of a `u64` (`parity_scale_codec::Encode::encode`): the
/// eight little-endian bytes of the value.
#[verifier::external_body]
pub(crate) fn encode_u64(x: u64) -> (r: Vec<u8>)
    ensures
        r@ == le_bytes(x),
{
    x.encode()
}

/// SCALE decoding of a `u64` from the front of `input`
/// (`parity_scale_codec::Decode::decode`): fails when fewer than eight
/// bytes are given, else the little-endian value of the first eight.
#[verifier::external_body]
pub(crate) fn decode_u64(input: &[u8]) -> (r: Option<u64>)
    ensures
        input@.len() < 8 ==> r is None,
        input@.len() >= 8 ==> r == Some(le_value(input@)),
{
    let mut slice = input;
    u64::decode(&mut slice).ok()
}

/// The `k` low bytes of `v`, least significant first.
pub open spec fn le_n(v: nat, k: nat) -> Seq<u8>
    decreases k,
{
    if k == 0 {
        Seq::empty()
    } else {
        seq![(v % 256) as u8] + le_n(v / 256, (k - 1) as nat)
    }
}

/// The SCALE compact encoding of a 32-bit length: one byte below 2^6, two
/// below 2^14, four below 2^30, the low two bits telling which; else the
/// marker byte 3 and the four bytes of the value.
pub open spec fn compact_u32(n: nat) -> Seq<u8> {
    if n < 0x40 {
        seq![(n * 4) as u8]
    } else if n < 0x4000 {
        le_n(n * 4 + 1, 2)
    } else if n < 0x4000_0000 {
        le_n(n * 4 + 2, 4)
    } else {
        seq![3u8] + le_n(n, 4)
    }
}

/// The little-endian bytes of each account, one after the other.
pub open spec fn le_concat(accounts: Seq<AccountId>) -> Seq<u8>
    decreases accounts.len(),
{
    if accounts.len() == 0 {
        Seq::empty()
    } else {
        le_concat(accounts.drop_last()) + le_bytes(accounts.last())
    }
}

/// The SCALE encoding of a list of accounts: its compact length, then the
/// accounts.
pub open spec fn scale_accounts(accounts: Seq<AccountId>) -> Seq<u8> {
    compact_u32(accounts.len()) + le_concat(accounts)
}

/// SCALE encoding of a list of accounts (`parity_scale_codec::Encode::encode`
/// on a slice): a compact length prefix followed by the accounts. The
/// encoder panics on more than `u32::MAX` entries.
#[verifier::external_body]
pub(crate) fn encode_accounts(accounts: &[AccountId]) -> (r: Vec<u8>)
    requires
        accounts@.len() <= u32::MAX,
    ensures
        r@ == scale_accounts(accounts@),
{
    accounts.encode()
}

pub proof fn lemma_le_roundtrip(x: u64)
    ensures
        le_value(le_bytes(x)) == x,
{
    let b = le_bytes(x);
    assert(b[0] == x as u8 && b[1] == (x >> 8u64) as u8 && b[2] == (x >> 16u64) as u8 && b[3]
        == (x >> 24u64) as u8 && b[4] == (x >> 32u64) as u8 && b[5] == (x >> 40u64) as u8 && b[6]
        == (x >> 48u64) as u8 && b[7] == (x >> 56u64) as u8);
    assert(((x as u8) as u64) | ((((x >> 8u64) as u8) as u64) << 8u64) | ((((x
        >> 16u64) as u8) as u64) << 16u64) | ((((x >> 24u64) as u8) as u64) << 24u64) | ((((x
        >> 32u64) as u8) as u64) << 32u64) | ((((x >> 40u64) as u8) as u64) << 40u64) | ((((x
        >> 48u64) as u8) as u64) << 48u64) | ((((x >> 56u64) as u8) as u64) << 56u64) == x)
        by (bit_vector);
}

/// Appends the bytes of `src` to `dst`.
pub fn extend_bytes(dst: &mut Vec<u8>, src: &[u8])
    ensures
        final(dst)@ == old(dst)@ + src@,
{
    let mut i: usize = 0;
    let ghost start = dst@;
    while i < src.len()
        invariant
            i <= src@.len(),
            dst@ == start + src@.subrange(0, i as int),
        decreases src@.len() - i,
    {
        dst.push(src[i]);
        i = i + 1;
        assert(dst@ =~= start + src@.subrange(0, i as int));
    }
    assert(src@.subrange(0, src@.len() as int) =~= src@);
}

/// The first `N` bytes of `input` as an array; `input` must hold them.
pub fn take_array<const N: usize>(input: &[u8]) -> (r: [u8; N])
    requires
        input@.len() >= N,
    ensures
        r@ == input@.subrange(0, N as int),
{
    let mut r = [0u8; N];
    let mut i: usize = 0;
    while i < N
        invariant
            i <= N,
            N <= input@.len(),
            r@.len() == N,
            forall|j: int| 0 <= j < i ==> r@[j] == input@[j],
        decreases N - i,
    {
        r[i] = input[i];
        i = i + 1;
    }
    assert(r@ =~= input@.subrange(0, N as int));
    r
}

/// `input` without its first `n` bytes.
pub fn skip_bytes(input: &[u8], n: usize) -> (r: &[u8])
    requires
        n <= input@.len(),
    ensures
        r@ == input@.subrange(n as int, input@.len() as int),
{
    &input[n..input.len()]
}

} // verus!
