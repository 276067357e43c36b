//! The keystream and the byte combiner, with their mathematical model.

use vstd::prelude::*;
use vstd::arithmetic::div_mod::lemma_fundamental_div_mod_converse;

verus! {

/// Number of random bytes placed in front of the plaintext.
pub const PREFIX_SIZE: usize = 16;

/// Size of the chunk read from a file in one step.
pub const BUFFER_SIZE: usize = 512;

/// A byte-combining operation that undoes itself: combining a byte twice
/// with the same keystream byte gives it back. The streamers are generic
/// over it, so one streamer serves both directions.
pub trait Combiner {
    /// What `combine` returns.
    spec fn spec_combine(x: u8, y: u8) -> u8;

    /// Every combiner is its own inverse.
    proof fn lemma_involution(b: u8, k: u8)
        ensures
            Self::spec_combine(Self::spec_combine(b, k), k) == b,
    ;

    /// Combines a data byte with a keystream byte.
    fn combine(&self, x: u8, y: u8) -> (r: u8)
        ensures
            r == Self::spec_combine(x, y),
    ;
}

/// The exclusive-or combiner.
#[derive(Debug, Clone, Copy, PartialEq, Eq, Structural)]
pub struct Xor;

impl Combiner for Xor {
    open spec fn spec_combine(x: u8, y: u8) -> u8 {
        x ^ y
    }

    proof fn lemma_involution(b: u8, k: u8) {
        assert((b ^ k) ^ k == b) by (bit_vector);
    }

    fn combine(&self, x: u8, y: u8) -> (r: u8) {
        xor(x, y)
    }
}

/// The keystream byte at logical position `p`: the key repeated forever.
pub open spec fn key_at(key: Seq<u8>, p: int) -> u8
    recommends
        key.len() > 0,
{
    key[p % (key.len() as int)]
}

/// Combines `data` with the keystream, the first byte of `data` standing at
/// logical position `start`.
pub open spec fn combine_stream<C: Combiner>(data: Seq<u8>, key: Seq<u8>, start: int) -> Seq<u8> {
    Seq::new(data.len(), |i: int| C::spec_combine(data[i], key_at(key, start + i)))
}

/// The content of a file after encryption: the prefix followed by the
/// plaintext, combined with the keystream from position zero.
pub open spec fn encrypted<C: Combiner>(plain: Seq<u8>, key: Seq<u8>, prefix: Seq<u8>) -> Seq<u8> {
    combine_stream::<C>(prefix + plain, key, 0)
}

/// The content of a file after decryption: everything past the prefix,
/// combined with the keystream from the prefix length on.
pub open spec fn decrypted<C: Combiner>(cipher: Seq<u8>, key: Seq<u8>) -> Seq<u8> {
    combine_stream::<C>(cipher.subrange(PREFIX_SIZE as int, cipher.len() as int), key, PREFIX_SIZE as int)
}

/// Combines two bytes by exclusive or.
pub fn xor(x: u8, y: u8) -> (r: u8)
    ensures
        r == x ^ y,
{
    x ^ y
}

/// Advancing a position by one moves its key index by one, wrapping at the
/// key length.
pub proof fn lemma_key_index_step(p: int, k: int)
    requires
        k > 0,
        p >= 0,
    ensures
        (p + 1) % k == if p % k + 1 < k { p % k + 1 } else { 0 },
{
    let q = p / k;
    let r = p % k;
    assert(p == q * k + r) by (nonlinear_arith)
        requires
            k > 0,
            q == p / k,
            r == p % k,
    ;
    if r + 1 < k {
        lemma_fundamental_div_mod_converse(p + 1, k, q, r + 1);
    } else {
        assert(p + 1 == (q + 1) * k + 0) by (nonlinear_arith)
            requires
                p == q * k + r,
                r + 1 == k,
        ;
        lemma_fundamental_div_mod_converse(p + 1, k, q + 1, 0);
    }
}

/// Appends `src` combined with the keystream to `dst`. The first byte of
/// `src` stands at logical position `pos`, whose key index is `key_index`;
/// the key index of the position after the last byte is returned.
pub(crate) fn combine_chunk<C: Combiner>(
    combiner: &C,
    dst: &mut Vec<u8>,
    src: &[u8],
    key: &Vec<u8>,
    key_index: usize,
    Ghost(pos): Ghost<int>,
) -> (next: usize)
    requires
        key@.len() > 0,
        pos >= 0,
        key_index == pos % (key@.len() as int),
    ensures
        final(dst)@ == old(dst)@ + combine_stream::<C>(src@, key@, pos),
        next == (pos + src@.len()) % (key@.len() as int),
{
    let ghost start = dst@;
    let mut ki: usize = key_index;
    let mut i: usize = 0;
    while i < src.len()
        invariant
            key@.len() > 0,
            pos >= 0,
            i <= src@.len(),
            ki == (pos + i) % (key@.len() as int),
            ki < key@.len(),
            dst@ == start + combine_stream::<C>(src@.subrange(0, i as int), key@, pos),
        decreases src@.len() - i,
    {
        let b = combiner.combine(src[i], key[ki]);
        dst.push(b);
        proof {
            lemma_key_index_step(pos + i, key@.len() as int);
            assert(src@.subrange(0, i + 1) =~= src@.subrange(0, i as int).push(src@[i as int]));
            assert(combine_stream::<C>(src@.subrange(0, i + 1), key@, pos) =~= combine_stream::<C>(
                src@.subrange(0, i as int),
                key@,
                pos,
            ).push(b));
        }
        if ki < key.len() - 1 {
            ki = ki + 1;
        } else {
            ki = 0;
        }
        i = i + 1;
    }
    assert(src@.subrange(0, i as int) =~= src@);
    ki
}

/// Applying the keystream twice, from the same position, is the identity.
pub proof fn lemma_combine_twice<C: Combiner>(data: Seq<u8>, key: Seq<u8>, start: int)
    ensures
        combine_stream::<C>(combine_stream::<C>(data, key, start), key, start) == data,
{
    let once = combine_stream::<C>(data, key, start);
    let twice = combine_stream::<C>(once, key, start);
    assert forall|i: int| 0 <= i < data.len() implies twice[i] == data[i] by {
        C::lemma_involution(data[i], key_at(key, start + i));
    }
    assert(twice =~= data);
}

/// Encryption adds the prefix length to the file; decryption of a file at
/// least that long removes it.
pub proof fn lemma_length_law<C: Combiner>(plain: Seq<u8>, cipher: Seq<u8>, key: Seq<u8>, prefix: Seq<u8>)
    requires
        prefix.len() == PREFIX_SIZE,
        cipher.len() >= PREFIX_SIZE,
    ensures
        encrypted::<C>(plain, key, prefix).len() == plain.len() + PREFIX_SIZE,
        decrypted::<C>(cipher, key).len() == cipher.len() - PREFIX_SIZE,
{
}

/// The byte at output position `i` of an encrypted file is the byte at
/// position `i` of prefix-then-plaintext, combined with key byte `i mod |key|`;
/// with the exclusive-or combiner, their exclusive or.
pub proof fn lemma_ciphertext_byte<C: Combiner>(plain: Seq<u8>, key: Seq<u8>, prefix: Seq<u8>, i: int)
    requires
        key.len() > 0,
        0 <= i < prefix.len() + plain.len(),
    ensures
        encrypted::<C>(plain, key, prefix)[i] == C::spec_combine((prefix + plain)[i], key[i % (key.len() as int)]),
        encrypted::<Xor>(plain, key, prefix)[i] == (prefix + plain)[i] ^ key[i % (key.len() as int)],
{
}

/// Decrypting an encryption under the same key gives the plaintext back,
/// whatever the prefix was.
pub proof fn lemma_round_trip<C: Combiner>(plain: Seq<u8>, key: Seq<u8>, prefix: Seq<u8>)
    requires
        key.len() > 0,
        prefix.len() == PREFIX_SIZE,
    ensures
        decrypted::<C>(encrypted::<C>(plain, key, prefix), key) == plain,
        decrypted::<C>(encrypted::<C>(plain, key, prefix), key).len() == plain.len(),
{
    let c = encrypted::<C>(plain, key, prefix);
    let body = c.subrange(PREFIX_SIZE as int, c.len() as int);
    assert(body =~= combine_stream::<C>(plain, key, PREFIX_SIZE as int));
    lemma_combine_twice::<C>(plain, key, PREFIX_SIZE as int);
}

/// Encrypting twice is never the identity: each run adds a prefix.
pub proof fn lemma_encrypt_twice_grows<C: Combiner>(plain: Seq<u8>, key: Seq<u8>, p1: Seq<u8>, p2: Seq<u8>)
    requires
        p1.len() == PREFIX_SIZE,
        p2.len() == PREFIX_SIZE,
    ensures
        encrypted::<C>(encrypted::<C>(plain, key, p1), key, p2).len() == plain.len() + 2 * PREFIX_SIZE,
        encrypted::<C>(encrypted::<C>(plain, key, p1), key, p2) != plain,
{
}

} // verus!
