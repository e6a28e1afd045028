//! `MockRng`: a reproducible source of random bytes, drawn from the ChaCha20
//! keystream of a fixed key and nonce.

use vstd::prelude::*;

use core::convert::Infallible;

use crate::keystream::{
    chacha20_apply_keystream_at, chacha20_block, chacha20_keystream_byte, keystream,
    keystream_xor, lemma_keystream_xor_split, lemma_keystream_xor_zeros, KEYSTREAM_LIMIT,
};

verus! {

/// The key of the generator: the ASCII bytes of "an example very very secret key.".
pub open spec fn mock_key() -> Seq<u8> {
    seq![
        97u8, 110, 32, 101, 120, 97, 109, 112, 108, 101, 32, 118, 101, 114, 121, 32,
        118, 101, 114, 121, 32, 115, 101, 99, 114, 101, 116, 32, 107, 101, 121, 46,
    ]
}

/// The nonce of the generator: the ASCII bytes of "secret nonce".
pub open spec fn mock_nonce() -> Seq<u8> {
    seq![115u8, 101, 99, 114, 101, 116, 32, 110, 111, 110, 99, 101]
}

/// `data` with the generator's keystream, from byte `pos` on, XORed into it.
pub open spec fn mock_xor(pos: int, data: Seq<u8>) -> Seq<u8> {
    keystream_xor(mock_key(), mock_nonce(), pos, data)
}

/// The `n` bytes of the generator's keystream that start at byte `pos`.
pub open spec fn mock_stream(pos: int, n: nat) -> Seq<u8> {
    keystream(mock_key(), mock_nonce(), pos, n)
}

fn mock_key_bytes() -> (key: [u8; 32])
    ensures
        key@ == mock_key(),
{
    let key: [u8; 32] = [
        97u8, 110, 32, 101, 120, 97, 109, 112, 108, 101, 32, 118, 101, 114, 121, 32,
        118, 101, 114, 121, 32, 115, 101, 99, 114, 101, 116, 32, 107, 101, 121, 46,
    ];
    assert(key@ =~= mock_key());
    key
}

fn mock_nonce_bytes() -> (nonce: [u8; 12])
    ensures
        nonce@ == mock_nonce(),
{
    let nonce: [u8; 12] = [115u8, 101, 99, 114, 101, 116, 32, 110, 111, 110, 99, 101];
    assert(nonce@ =~= mock_nonce());
    nonce
}

/// A deterministic random number generator: ChaCha20 keyed with
/// "an example very very secret key." and the nonce "secret nonce".
///
/// Its state is the number of keystream bytes handed out so far.
pub struct MockRng {
    pos: u64,
}

impl View for MockRng {
    type V = nat;

    /// The keystream position: how many bytes the generator has handed out.
    closed spec fn view(&self) -> nat {
        self.pos as nat
    }
}

impl MockRng {
    /// A generator at the start of its keystream.
    pub fn new() -> (rng: Self)
        ensures
            rng@ == 0,
    {
        MockRng { pos: 0 }
    }

    /// How many keystream bytes the generator has handed out.
    pub fn position(&self) -> (pos: u64)
        ensures
            pos == self@,
    {
        self.pos
    }

    /// Fills `buf` with the next `buf.len()` bytes of the keystream, XORed
    /// into what `buf` holds (a zeroed buffer receives the keystream itself),
    /// and moves past them. It never fails.
    pub fn read(&mut self, buf: &mut [u8]) -> (r: Result<(), Infallible>)
        requires
            old(self)@ + old(buf)@.len() <= KEYSTREAM_LIMIT,
        ensures
            r is Ok,
            final(buf)@ == mock_xor(old(self)@ as int, old(buf)@),
            final(self)@ == old(self)@ + old(buf)@.len(),
    {
        let key = mock_key_bytes();
        let nonce = mock_nonce_bytes();
        let ghost before = buf@;
        chacha20_apply_keystream_at(&key, &nonce, self.pos, buf);
        assert(buf@ =~= mock_xor(self.pos as int, before));
        self.pos = self.pos + buf.len() as u64;
        Ok(())
    }
}

/// One read of `a ++ b` hands out the same bytes as a read of `a` followed by
/// a read of `b`: the generator is one continuous stream, however it is cut.
pub proof fn lemma_reads_concatenate(pos: int, a: Seq<u8>, b: Seq<u8>)
    ensures
        mock_xor(pos, a + b) == mock_xor(pos, a) + mock_xor(pos + a.len(), b),
{
    lemma_keystream_xor_split(mock_key(), mock_nonce(), pos, a, b);
}

/// Two generators at the same keystream position hand out the same bytes for
/// the same buffer: the generator is reproducible, so every fresh one (at
/// position 0, by `new`) yields one and the same sequence.
pub proof fn lemma_same_position_same_bytes(r1: MockRng, r2: MockRng, data: Seq<u8>)
    requires
        r1@ == r2@,
    ensures
        mock_xor(r1@ as int, data) == mock_xor(r2@ as int, data),
{
}

/// Byte `i` of a read at keystream position `pos` is the input byte XORed
/// with byte `(pos + i) % 64` of the RFC 8439 ChaCha20 block whose counter is
/// `(pos + i) / 64`, and that counter fits the 32-bit block counter exactly:
/// a read never restarts or wraps the keystream, however far it goes.
pub proof fn lemma_read_byte_is_block_byte(pos: int, data: Seq<u8>, i: int)
    requires
        0 <= pos,
        0 <= i < data.len(),
        pos + data.len() <= KEYSTREAM_LIMIT,
    ensures
        (pos + i) / 64 < 0x1_0000_0000,
        mock_xor(pos, data)[i] == data[i] ^ chacha20_block(
            mock_key(),
            mock_nonce(),
            ((pos + i) / 64) as u32,
        )[(pos + i) % 64],
{
}

/// A read leaves a byte of the buffer as it was exactly where the keystream
/// byte at that position is zero: every byte of the buffer, up to its last,
/// gets the keystream XORed into it.
pub proof fn lemma_read_touches_every_byte(pos: int, data: Seq<u8>, i: int)
    requires
        0 <= i < data.len(),
    ensures
        mock_xor(pos, data).len() == data.len(),
        (mock_xor(pos, data)[i] == data[i]) <==> (chacha20_keystream_byte(
            mock_key(),
            mock_nonce(),
            pos + i,
        ) == 0),
{
    let x = data[i];
    let k = chacha20_keystream_byte(mock_key(), mock_nonce(), pos + i);
    assert((x ^ k == x) <==> (k == 0)) by (bit_vector);
}

/// A zeroed 64-byte read at the block-aligned position `64 * k` hands out
/// exactly the RFC 8439 ChaCha20 block with counter `k`, for every block the
/// generator reaches: consecutive blocks of the stream, never a repeat of
/// earlier ones.
pub proof fn lemma_aligned_read_is_block(k: nat)
    requires
        64 * (k + 1) <= KEYSTREAM_LIMIT,
    ensures
        mock_xor((64 * k) as int, Seq::new(64, |i: int| 0u8)) == chacha20_block(
            mock_key(),
            mock_nonce(),
            k as u32,
        ),
{
    let zeros = Seq::new(64, |i: int| 0u8);
    let lhs = mock_xor((64 * k) as int, zeros);
    let rhs = chacha20_block(mock_key(), mock_nonce(), k as u32);
    assert forall|i: int| 0 <= i < 64 implies lhs[i] == rhs[i] by {
        assert((64 * k + i) / 64 == k) by (nonlinear_arith)
            requires
                0 <= i < 64,
                k >= 0,
        ;
        assert((64 * k + i) % 64 == i) by (nonlinear_arith)
            requires
                0 <= i < 64,
                k >= 0,
        ;
        let b = rhs[i];
        assert(0u8 ^ b == b) by (bit_vector);
    }
    assert(lhs =~= rhs);
}

/// A read into a zeroed buffer hands out the keystream bytes themselves.
pub proof fn lemma_zeroed_read_is_keystream(pos: int, n: nat)
    ensures
        mock_xor(pos, Seq::new(n, |i: int| 0u8)) == mock_stream(pos, n),
{
    lemma_keystream_xor_zeros(mock_key(), mock_nonce(), pos, n);
}

} // verus!
