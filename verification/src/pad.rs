//! Fixed-size byte arrays that hold shorter strings, padded with zeros.
use vstd::prelude::*;
use crate::codec::{encode_u64, extend_bytes, le_bytes};

verus! {

/// `input` followed by zero bytes up to a total length of `n`.
pub open spec fn padded(input: Seq<u8>, n: nat) -> Seq<u8> {
    input + Seq::new((n - input.len()) as nat, |i: int| 0u8)
}

/// Copies `input` into the front of an `N` byte array whose remaining bytes
/// are zero. The input must not be longer than `N` bytes.
pub fn pad_to_n_bytes<const N: usize>(input: &[u8]) -> (output: [u8; N])
    requires
        input@.len() <= N,
    ensures
        output@ == padded(input@, N as nat),
{
    let mut output = [0u8; N];
    let mut i: usize = 0;
    while i < input.len()
        invariant
            input@.len() <= N,
            i <= input@.len(),
            output@.len() == N,
            forall|j: int| 0 <= j < i ==> output@[j] == input@[j],
            forall|j: int| i <= j < N ==> output@[j] == 0u8,
        decreases input@.len() - i,
    {
        output[i] = input[i];
        i = i + 1;
    }
    assert(output@ =~= padded(input@, N as nat));
    output
}


/// The number of bytes of `b` before its first zero byte (all of them when
/// it holds none).
pub open spec fn nonzero_prefix_len(b: Seq<u8>) -> nat
    decreases b.len(),
{
    if b.len() == 0 || b[0] == 0 {
        0
    } else {
        1 + nonzero_prefix_len(b.drop_first())
    }
}

/// The characters whose code points are the bytes of `b`.
pub open spec fn latin1_chars(b: Seq<u8>) -> Seq<char> {
    b.map_values(|x: u8| x as char)
}

/// Appends `c` to `s` (`String::push`).
#[verifier::external_body]
fn push_char(s: &mut String, c: char)
    ensures
        final(s)@ == old(s)@.push(c),
{
    s.push(c)
}

proof fn lemma_nonzero_prefix(b: Seq<u8>, i: int)
    requires
        0 <= i <= b.len(),
        forall|j: int| 0 <= j < i ==> b[j] != 0,
    ensures
        i == b.len() ==> nonzero_prefix_len(b) == b.len(),
        i < b.len() && b[i] == 0 ==> nonzero_prefix_len(b) == i,
        nonzero_prefix_len(b) <= b.len(),
    decreases i,
{
    if b.len() > 0 {
        if i > 0 {
            assert forall|j: int| 0 <= j < i - 1 implies b.drop_first()[j] != 0 by {
                assert(b.drop_first()[j] == b[j + 1]);
            }
            lemma_nonzero_prefix(b.drop_first(), i - 1);
        } else {
            lemma_nonzero_prefix_len_le(b);
        }
    }
}

proof fn lemma_nonzero_prefix_len_le(b: Seq<u8>)
    ensures
        nonzero_prefix_len(b) <= b.len(),
    decreases b.len(),
{
    if b.len() > 0 && b[0] != 0 {
        lemma_nonzero_prefix_len_le(b.drop_first());
    }
}

/// The characters of `input` up to its first zero byte, each byte taken as
/// the character with that code point.
pub fn unpad_from_n_bytes<const N: usize>(input: &[u8; N]) -> (s: String)
    ensures
        s@ == latin1_chars(input@.take(nonzero_prefix_len(input@) as int)),
{
    let mut s = String::new();
    let mut i: usize = 0;
    while i < N && input[i] != 0
        invariant
            i <= N,
            input@.len() == N,
            forall|j: int| 0 <= j < i ==> input@[j] != 0,
            s@ == latin1_chars(input@.take(i as int)),
        decreases N - i,
    {
        let c = input[i] as char;
        push_char(&mut s, c);
        i = i + 1;
        assert(latin1_chars(input@.take(i as int)) =~= latin1_chars(input@.take(i - 1)).push(c));
    }
    proof {
        lemma_nonzero_prefix(input@, i as int);
    }
    s
}

/// `prefix` followed by the little-endian bytes of `id`, padded to 64
/// bytes. The prefix must leave room for the id.
pub fn padded_id(prefix: &[u8], id: u64) -> (output: [u8; 64])
    requires
        prefix@.len() + 8 <= 64,
    ensures
        output@ == padded(prefix@ + le_bytes(id), 64),
{
    let mut tmp: Vec<u8> = Vec::new();
    extend_bytes(&mut tmp, prefix);
    let id_bytes = encode_u64(id);
    extend_bytes(&mut tmp, id_bytes.as_slice());
    pad_to_n_bytes(tmp.as_slice())
}

/// Padding a string without zero bytes and reading it back gives its
/// characters.
pub proof fn law_unpad_undoes_pad<const N: usize>(input: Seq<u8>, output: [u8; N])
    requires
        input.len() <= N,
        output@ == padded(input, N as nat),
        forall|i: int| 0 <= i < input.len() ==> input[i] != 0,
    ensures
        latin1_chars(output@.take(nonzero_prefix_len(output@) as int)) == latin1_chars(input),
{
    let b = output@;
    assert forall|j: int| 0 <= j < input.len() implies b[j] != 0 by {
        assert(b[j] == input[j]);
    }
    if input.len() < N {
        assert(b[input.len() as int] == 0);
    }
    lemma_nonzero_prefix(b, input.len() as int);
    assert(b.take(input.len() as int) =~= input);
}

} // verus!
