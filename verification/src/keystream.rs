//! The ChaCha20 keystream of RFC 8439 (96-bit nonce, 32-bit block counter):
//! the block function as a specification, and a verified implementation
//! that XORs the keystream, from any byte position on, into a buffer.

use vstd::prelude::*;

verus! {

/// The largest keystream position (in bytes) up to which this library reads.
///
/// ChaCha20 counts 64-byte blocks with a 32-bit counter. Ending a read at or
/// before `64 * (u32::MAX - 4)` bytes keeps every block counter of the read
/// well inside that range (the `chacha20` crate refuses, with a panic, once
/// its counter would pass `u32::MAX`).
pub const KEYSTREAM_LIMIT: u64 = 274877906624;

/// Addition modulo 2^32.
pub open spec fn add32(x: u32, y: u32) -> u32 {
    ((x as int + y as int) % 0x1_0000_0000) as u32
}

/// Left rotation of a 32-bit word by `n` bits (`0 < n < 32`).
pub open spec fn rotl(x: u32, n: u32) -> u32 {
    (x << n) | (x >> ((32 - n) as u32))
}

/// The little-endian 32-bit word of four bytes.
pub open spec fn word_le(b0: u8, b1: u8, b2: u8, b3: u8) -> u32 {
    (b0 as u32) | ((b1 as u32) << 8u32) | ((b2 as u32) << 16u32) | ((b3 as u32) << 24u32)
}

/// The little-endian word that starts at byte `i` of `b`.
pub open spec fn le32(b: Seq<u8>, i: int) -> u32 {
    word_le(b[i], b[i + 1], b[i + 2], b[i + 3])
}

/// The ChaCha quarter round on words `a`, `b`, `c`, `d` of the state
/// (RFC 8439, section 2.1).
pub open spec fn quarter_round(s: Seq<u32>, a: int, b: int, c: int, d: int) -> Seq<u32> {
    let a1 = add32(s[a], s[b]);
    let d1 = rotl(s[d] ^ a1, 16);
    let c1 = add32(s[c], d1);
    let b1 = rotl(s[b] ^ c1, 12);
    let a2 = add32(a1, b1);
    let d2 = rotl(d1 ^ a2, 8);
    let c2 = add32(c1, d2);
    let b2 = rotl(b1 ^ c2, 7);
    s.update(a, a2).update(b, b2).update(c, c2).update(d, d2)
}

/// A column round followed by a diagonal round (RFC 8439, section 2.3).
pub open spec fn double_round(s: Seq<u32>) -> Seq<u32> {
    let s = quarter_round(s, 0, 4, 8, 12);
    let s = quarter_round(s, 1, 5, 9, 13);
    let s = quarter_round(s, 2, 6, 10, 14);
    let s = quarter_round(s, 3, 7, 11, 15);
    let s = quarter_round(s, 0, 5, 10, 15);
    let s = quarter_round(s, 1, 6, 11, 12);
    let s = quarter_round(s, 2, 7, 8, 13);
    quarter_round(s, 3, 4, 9, 14)
}

/// `n` double rounds.
pub open spec fn double_rounds(s: Seq<u32>, n: nat) -> Seq<u32>
    decreases n,
{
    if n == 0 {
        s
    } else {
        double_round(double_rounds(s, (n - 1) as nat))
    }
}

/// The initial ChaCha20 state: the constant "expand 32-byte k", the key,
/// the block counter and the nonce, as little-endian words.
pub open spec fn initial_state(key: Seq<u8>, nonce: Seq<u8>, counter: u32) -> Seq<u32> {
    seq![
        0x61707865u32, 0x3320646eu32, 0x79622d32u32, 0x6b206574u32,
        le32(key, 0), le32(key, 4), le32(key, 8), le32(key, 12),
        le32(key, 16), le32(key, 20), le32(key, 24), le32(key, 28),
        counter, le32(nonce, 0), le32(nonce, 4), le32(nonce, 8),
    ]
}

/// The sixteen output words of the block function: twenty rounds (ten
/// double rounds), then the initial state added word by word.
pub open spec fn block_words(key: Seq<u8>, nonce: Seq<u8>, counter: u32) -> Seq<u32> {
    let s = initial_state(key, nonce, counter);
    let w = double_rounds(s, 10);
    Seq::new(16, |i: int| add32(w[i], s[i]))
}

/// Byte `i` of the serialisation of `words`, little-endian word by word.
pub open spec fn serialized_byte(words: Seq<u32>, i: int) -> u8 {
    (words[i / 4] >> ((8 * (i % 4)) as u32)) as u8
}

/// The 64-byte ChaCha20 block for `key`, `nonce` and block `counter`
/// (RFC 8439, section 2.3).
pub open spec fn chacha20_block(key: Seq<u8>, nonce: Seq<u8>, counter: u32) -> Seq<u8> {
    let words = block_words(key, nonce, counter);
    Seq::new(64, |i: int| serialized_byte(words, i))
}

/// The keystream byte at byte offset `pos`: byte `pos % 64` of the block
/// with counter `pos / 64` (RFC 8439, section 2.4, counter starting at 0).
pub open spec fn chacha20_keystream_byte(key: Seq<u8>, nonce: Seq<u8>, pos: int) -> u8 {
    chacha20_block(key, nonce, (pos / 64) as u32)[pos % 64]
}

/// `data` with the keystream that starts at byte `pos` XORed into it.
pub open spec fn keystream_xor(key: Seq<u8>, nonce: Seq<u8>, pos: int, data: Seq<u8>) -> Seq<u8> {
    Seq::new(data.len(), |i: int| data[i] ^ chacha20_keystream_byte(key, nonce, pos + i))
}

/// The `n` keystream bytes that start at byte `pos`.
pub open spec fn keystream(key: Seq<u8>, nonce: Seq<u8>, pos: int, n: nat) -> Seq<u8> {
    Seq::new(n, |i: int| chacha20_keystream_byte(key, nonce, pos + i))
}

fn add32_exec(x: u32, y: u32) -> (r: u32)
    ensures
        r == add32(x, y),
{
    x.wrapping_add(y)
}

fn rotl_exec(x: u32, n: u32) -> (r: u32)
    requires
        0 < n < 32,
    ensures
        r == rotl(x, n),
{
    (x << n) | (x >> (32 - n))
}

fn word_le_exec(b0: u8, b1: u8, b2: u8, b3: u8) -> (w: u32)
    ensures
        w == word_le(b0, b1, b2, b3),
{
    (b0 as u32) | ((b1 as u32) << 8u32) | ((b2 as u32) << 16u32) | ((b3 as u32) << 24u32)
}

fn quarter_round_exec(s: &mut [u32; 16], a: usize, b: usize, c: usize, d: usize)
    requires
        a < 16,
        b < 16,
        c < 16,
        d < 16,
        a != b,
        a != c,
        a != d,
        b != c,
        b != d,
        c != d,
    ensures
        final(s)@ == quarter_round(old(s)@, a as int, b as int, c as int, d as int),
{
    let a1 = add32_exec(s[a], s[b]);
    let d1 = rotl_exec(s[d] ^ a1, 16);
    let c1 = add32_exec(s[c], d1);
    let b1 = rotl_exec(s[b] ^ c1, 12);
    let a2 = add32_exec(a1, b1);
    let d2 = rotl_exec(d1 ^ a2, 8);
    let c2 = add32_exec(c1, d2);
    let b2 = rotl_exec(b1 ^ c2, 7);
    s[a] = a2;
    s[b] = b2;
    s[c] = c2;
    s[d] = d2;
    assert(s@ =~= quarter_round(old(s)@, a as int, b as int, c as int, d as int));
}

fn double_round_exec(s: &mut [u32; 16])
    ensures
        final(s)@ == double_round(old(s)@),
{
    quarter_round_exec(s, 0, 4, 8, 12);
    quarter_round_exec(s, 1, 5, 9, 13);
    quarter_round_exec(s, 2, 6, 10, 14);
    quarter_round_exec(s, 3, 7, 11, 15);
    quarter_round_exec(s, 0, 5, 10, 15);
    quarter_round_exec(s, 1, 6, 11, 12);
    quarter_round_exec(s, 2, 7, 8, 13);
    quarter_round_exec(s, 3, 4, 9, 14);
}

fn initial_state_exec(key: &[u8; 32], nonce: &[u8; 12], counter: u32) -> (s: [u32; 16])
    ensures
        s@ == initial_state(key@, nonce@, counter),
{
    let s: [u32; 16] = [
        0x61707865u32, 0x3320646eu32, 0x79622d32u32, 0x6b206574u32,
        word_le_exec(key[0], key[1], key[2], key[3]),
        word_le_exec(key[4], key[5], key[6], key[7]),
        word_le_exec(key[8], key[9], key[10], key[11]),
        word_le_exec(key[12], key[13], key[14], key[15]),
        word_le_exec(key[16], key[17], key[18], key[19]),
        word_le_exec(key[20], key[21], key[22], key[23]),
        word_le_exec(key[24], key[25], key[26], key[27]),
        word_le_exec(key[28], key[29], key[30], key[31]),
        counter,
        word_le_exec(nonce[0], nonce[1], nonce[2], nonce[3]),
        word_le_exec(nonce[4], nonce[5], nonce[6], nonce[7]),
        word_le_exec(nonce[8], nonce[9], nonce[10], nonce[11]),
    ];
    assert(s@ =~= initial_state(key@, nonce@, counter));
    s
}

/// Computes the ChaCha20 block for `key`, `nonce` and block `counter`.
fn chacha20_block_exec(key: &[u8; 32], nonce: &[u8; 12], counter: u32) -> (block: [u8; 64])
    ensures
        block@ == chacha20_block(key@, nonce@, counter),
{
    let init = initial_state_exec(key, nonce, counter);
    let mut w = init;
    let mut r: usize = 0;
    while r < 10
        invariant
            r <= 10,
            init@ == initial_state(key@, nonce@, counter),
            w@ == double_rounds(init@, r as nat),
        decreases 10 - r,
    {
        double_round_exec(&mut w);
        r = r + 1;
    }
    let mut words: [u32; 16] = [0u32; 16];
    let mut i: usize = 0;
    while i < 16
        invariant
            i <= 16,
            w@ == double_rounds(init@, 10),
            forall|j: int| 0 <= j < i ==> #[trigger] words@[j] == add32(w@[j], init@[j]),
        decreases 16 - i,
    {
        words[i] = add32_exec(w[i], init[i]);
        i = i + 1;
    }
    assert(words@ =~= block_words(key@, nonce@, counter));
    let mut block: [u8; 64] = [0u8; 64];
    let mut k: usize = 0;
    while k < 64
        invariant
            k <= 64,
            words@ == block_words(key@, nonce@, counter),
            forall|j: int| 0 <= j < k ==> #[trigger] block@[j] == serialized_byte(words@, j),
        decreases 64 - k,
    {
        block[k] = (words[k / 4] >> ((8 * (k % 4)) as u32)) as u8;
        k = k + 1;
    }
    assert(block@ =~= chacha20_block(key@, nonce@, counter));
    block
}

/// XORs into `buf` the ChaCha20 keystream of `key` and `nonce` that starts
/// at byte `pos`: each byte `buf[i]` is XORed with the keystream byte at
/// position `pos + i`.
pub(crate) fn chacha20_apply_keystream_at(key: &[u8; 32], nonce: &[u8; 12], pos: u64, buf: &mut [u8])
    requires
        pos + old(buf)@.len() <= KEYSTREAM_LIMIT,
    ensures
        final(buf)@.len() == old(buf)@.len(),
        forall|i: int|
            0 <= i < old(buf)@.len() ==> #[trigger] final(buf)@[i] == old(buf)@[i]
                ^ chacha20_keystream_byte(key@, nonce@, pos + i),
{
    let len = buf.len();
    let mut block: [u8; 64] = [0u8; 64];
    let mut i: usize = 0;
    while i < len
        invariant
            len == buf@.len(),
            len == old(buf)@.len(),
            i <= len,
            pos + len <= KEYSTREAM_LIMIT,
            forall|j: int|
                0 <= j < i ==> #[trigger] buf@[j] == old(buf)@[j] ^ chacha20_keystream_byte(
                    key@,
                    nonce@,
                    pos + j,
                ),
            forall|j: int| i <= j < len ==> #[trigger] buf@[j] == old(buf)@[j],
            i > 0 && (pos + i) % 64 != 0 ==> block@ == chacha20_block(
                key@,
                nonce@,
                ((pos + i) / 64) as u32,
            ),
        decreases len - i,
    {
        let p: u64 = pos + i as u64;
        if i == 0 || p % 64 == 0 {
            block = chacha20_block_exec(key, nonce, (p / 64) as u32);
        }
        let off: usize = (p % 64) as usize;
        buf[i] = buf[i] ^ block[off];
        proof {
            let q = p + 1;
            if q % 64 != 0 {
                assert(q / 64 == p / 64);
            }
        }
        i = i + 1;
    }
}

/// Applying the keystream to `a ++ b` from `pos` gives the same bytes as
/// applying it to `a` from `pos` and then to `b` from where `a` ended.
pub proof fn lemma_keystream_xor_split(key: Seq<u8>, nonce: Seq<u8>, pos: int, a: Seq<u8>, b: Seq<u8>)
    ensures
        keystream_xor(key, nonce, pos, a + b)
            == keystream_xor(key, nonce, pos, a) + keystream_xor(key, nonce, pos + a.len(), b),
{
    let lhs = keystream_xor(key, nonce, pos, a + b);
    let rhs = keystream_xor(key, nonce, pos, a) + keystream_xor(key, nonce, pos + a.len(), b);
    assert forall|i: int| 0 <= i < lhs.len() implies lhs[i] == rhs[i] by {
        if i >= a.len() {
            assert(pos + a.len() + (i - a.len()) == pos + i);
        }
    }
    assert(lhs =~= rhs);
}

/// Applying the keystream to zero bytes yields the keystream itself.
pub proof fn lemma_keystream_xor_zeros(key: Seq<u8>, nonce: Seq<u8>, pos: int, n: nat)
    ensures
        keystream_xor(key, nonce, pos, Seq::new(n, |i: int| 0u8)) == keystream(key, nonce, pos, n),
{
    let lhs = keystream_xor(key, nonce, pos, Seq::new(n, |i: int| 0u8));
    let rhs = keystream(key, nonce, pos, n);
    assert forall|i: int| 0 <= i < n implies lhs[i] == rhs[i] by {
        let k = chacha20_keystream_byte(key, nonce, pos + i);
        assert(0u8 ^ k == k) by (bit_vector);
    }
    assert(lhs =~= rhs);
}

} // verus!
