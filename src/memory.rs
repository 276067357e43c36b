//! The streamers driven over a byte buffer that stands for a seekable file:
//! each step reads a chunk at the streamer's read offset, and writes the
//! bytes it hands back in place, as a positional write on a file would.

use vstd::prelude::*;
use crate::cipher::{decrypted, encrypted, Combiner, PREFIX_SIZE};
use crate::stream::{CipherError, Decryptor, Encryptor};

verus! {

/// `s` after `b` has been written at offset `off`, growing it if needed.
pub open spec fn overwritten(s: Seq<u8>, off: int, b: Seq<u8>) -> Seq<u8> {
    Seq::new(
        if off + b.len() > s.len() { (off + b.len()) as nat } else { s.len() },
        |j: int| if off <= j < off + b.len() { b[j - off] } else { s[j] },
    )
}

/// Positional read: up to `max` bytes from `offset`.
fn read_at(file: &Vec<u8>, offset: usize, max: usize) -> (r: Vec<u8>)
    requires
        offset <= file@.len(),
    ensures
        r@ == file@.subrange(
            offset as int,
            if max <= file@.len() - offset { offset + max } else { file@.len() as int },
        ),
{
    let end: usize = if max <= file.len() - offset { offset + max } else { file.len() };
    let mut r: Vec<u8> = Vec::with_capacity(end - offset);
    let mut i: usize = offset;
    while i < end
        invariant
            offset <= i <= end <= file@.len(),
            r@ == file@.subrange(offset as int, i as int),
        decreases end - i,
    {
        r.push(file[i]);
        proof {
            assert(r@ =~= file@.subrange(offset as int, i + 1));
        }
        i = i + 1;
    }
    r
}

/// Positional write of `bytes` at `offset`, extending the buffer past its end.
fn write_at(file: &mut Vec<u8>, offset: usize, bytes: &[u8])
    requires
        offset <= old(file)@.len(),
        offset + bytes@.len() <= usize::MAX,
    ensures
        final(file)@ == overwritten(old(file)@, offset as int, bytes@),
{
    let ghost start = file@;
    let mut i: usize = 0;
    while i < bytes.len()
        invariant
            offset + bytes@.len() <= usize::MAX,
            offset <= start.len(),
            i <= bytes@.len(),
            file@ == overwritten(start, offset as int, bytes@.subrange(0, i as int)),
        decreases bytes@.len() - i,
    {
        let ghost prev = file@;
        if offset + i < file.len() {
            file.set(offset + i, bytes[i]);
        } else {
            file.push(bytes[i]);
        }
        proof {
            assert(file@ =~= overwritten(start, offset as int, bytes@.subrange(0, i + 1)));
        }
        i = i + 1;
    }
    proof {
        assert(bytes@.subrange(0, i as int) =~= bytes@);
    }
}

/// The encryption of a prefix of a plaintext agrees with the encryption of
/// the whole on every position it covers.
proof fn lemma_encrypted_prefix<C: Combiner>(plain: Seq<u8>, m: int, key: Seq<u8>, prefix: Seq<u8>)
    requires
        0 <= m <= plain.len(),
    ensures
        forall|i: int|
            0 <= i < prefix.len() + m ==> #[trigger] encrypted::<C>(plain.subrange(0, m), key, prefix)[i]
                == encrypted::<C>(plain, key, prefix)[i],
{
    assert forall|i: int| 0 <= i < prefix.len() + m implies #[trigger] encrypted::<C>(
        plain.subrange(0, m),
        key,
        prefix,
    )[i] == encrypted::<C>(plain, key, prefix)[i] by {
        assert((prefix + plain.subrange(0, m))[i] == (prefix + plain)[i]);
    }
}

/// Encrypts `file` in place, reading `chunk_size` bytes per step. Fails,
/// leaving the file as it was, exactly when the key is empty; otherwise the
/// file becomes `encrypted::<C>(file, key, prefix)`, whatever the chunk size.
pub fn encrypt_in_place<C: Combiner>(
    file: &mut Vec<u8>,
    key: Vec<u8>,
    prefix: Vec<u8>,
    chunk_size: usize,
    combiner: C,
) -> (r: Result<(), CipherError>)
    requires
        prefix@.len() == PREFIX_SIZE,
        chunk_size > 0,
        old(file)@.len() + PREFIX_SIZE <= usize::MAX,
    ensures
        r is Err <==> key@.len() == 0,
        r matches Err(e) ==> e == CipherError::EmptyKey && final(file)@ == old(file)@,
        r is Ok ==> final(file)@ == encrypted::<C>(old(file)@, key@, prefix@),
{
    let ghost orig = file@;
    let ghost kv = key@;
    let ghost pv = prefix@;
    let ghost full = encrypted::<C>(orig, kv, pv);
    let n = file.len();
    let mut enc = match Encryptor::new(key, n as u64, prefix, combiner) {
        Ok(e) => e,
        Err(e) => return Err(e),
    };
    while !enc.is_done()
        invariant
            enc.wf(),
            chunk_size > 0,
            n == orig.len(),
            n + PREFIX_SIZE <= usize::MAX,
            enc.file_size() == n,
            enc.key() == kv,
            enc.prefix() == pv,
            pv.len() == PREFIX_SIZE,
            full == encrypted::<C>(orig, kv, pv),
            enc.consumed() == orig.subrange(0, enc.consumed().len() as int),
            !enc.done() ==> {
                &&& file@.len() == n
                &&& file@.subrange(0, enc.consumed().len() as int) == full.subrange(
                    0,
                    enc.consumed().len() as int,
                )
                &&& file@.subrange(enc.consumed().len() as int, n as int) == orig.subrange(
                    enc.consumed().len() as int,
                    n as int,
                )
            },
            enc.done() ==> file@ == full,
        decreases n - enc.consumed().len() + if enc.done() { 0int } else { 1int },
    {
        let ghost c = enc.consumed().len() as int;
        let ghost before = file@;
        let ro = enc.read_offset() as usize;
        let chunk = read_at(file, ro, chunk_size);
        proof {
            assert(chunk@ =~= before.subrange(c, n as int).subrange(0, chunk@.len() as int));
            assert(chunk@ =~= orig.subrange(c, c + chunk@.len()));
        }
        let w = enc.absorb(chunk.as_slice());
        let ghost c2 = enc.consumed().len() as int;
        proof {
            assert(enc.consumed() =~= orig.subrange(0, c2));
            lemma_encrypted_prefix::<C>(orig, c2, kv, pv);
        }
        write_at(file, w.offset as usize, w.bytes.as_slice());
        proof {
            assert forall|j: int| 0 <= j < c implies file@[j] == full[j] by {
                assert(before.subrange(0, c)[j] == full.subrange(0, c)[j]);
            }
            if enc.done() {
                assert(file@ =~= full);
            } else {
                assert forall|j: int| c2 <= j < n implies file@[j] == orig[j] by {
                    assert(before.subrange(c, n as int)[j - c] == orig.subrange(c, n as int)[j - c]);
                }
                assert(file@.subrange(0, c2) =~= full.subrange(0, c2));
                assert(file@.subrange(c2, n as int) =~= orig.subrange(c2, n as int));
            }
        }
    }
    Ok(())
}

/// Decrypts `file` in place, reading `chunk_size` bytes per step. Fails,
/// leaving the file as it was, on an empty key, and otherwise on a file
/// shorter than the prefix; on success the file becomes
/// `decrypted::<C>(file, key)`, whatever the chunk size.
pub fn decrypt_in_place<C: Combiner>(
    file: &mut Vec<u8>,
    key: Vec<u8>,
    chunk_size: usize,
    combiner: C,
) -> (r: Result<(), CipherError>)
    requires
        chunk_size > 0,
    ensures
        r is Ok <==> key@.len() > 0 && old(file)@.len() >= PREFIX_SIZE,
        r == Err::<(), _>(CipherError::EmptyKey) <==> key@.len() == 0,
        r == Err::<(), _>(CipherError::FileTooShort) <==> key@.len() > 0 && old(file)@.len()
            < PREFIX_SIZE,
        r is Err ==> final(file)@ == old(file)@,
        r is Ok ==> final(file)@ == decrypted::<C>(old(file)@, key@),
{
    let ghost orig = file@;
    let ghost kv = key@;
    let ghost full = decrypted::<C>(orig, kv);
    let n = file.len();
    let mut dec = match Decryptor::new(key, n as u64, combiner) {
        Ok(d) => d,
        Err(e) => return Err(e),
    };
    while !dec.is_done()
        invariant
            dec.wf(),
            chunk_size > 0,
            n == orig.len(),
            n >= PREFIX_SIZE,
            dec.file_size() == n,
            dec.key() == kv,
            kv.len() > 0,
            full == decrypted::<C>(orig, kv),
            dec.consumed() == orig.subrange(
                PREFIX_SIZE as int,
                PREFIX_SIZE + dec.consumed().len(),
            ),
            file@.len() == n,
            file@.subrange(0, dec.consumed().len() as int) == full.subrange(
                0,
                dec.consumed().len() as int,
            ),
            file@.subrange(PREFIX_SIZE + dec.consumed().len(), n as int) == orig.subrange(
                PREFIX_SIZE + dec.consumed().len(),
                n as int,
            ),
            dec.done() ==> PREFIX_SIZE + dec.consumed().len() == n,
        decreases n - dec.consumed().len() + if dec.done() { 0int } else { 1int },
    {
        let ghost c = dec.consumed().len() as int;
        let ghost before = file@;
        let ro = dec.read_offset() as usize;
        let chunk = read_at(file, ro, chunk_size);
        proof {
            assert(chunk@ =~= before.subrange(PREFIX_SIZE + c, n as int).subrange(
                0,
                chunk@.len() as int,
            ));
            assert(chunk@ =~= orig.subrange(PREFIX_SIZE + c, PREFIX_SIZE + c + chunk@.len()));
        }
        let w = dec.absorb(chunk.as_slice());
        let ghost c2 = dec.consumed().len() as int;
        write_at(file, w.offset as usize, w.bytes.as_slice());
        proof {
            assert(dec.consumed() =~= orig.subrange(PREFIX_SIZE as int, PREFIX_SIZE + c2));
            assert forall|j: int| PREFIX_SIZE + c2 <= j < n implies file@[j] == orig[j] by {
                assert(before.subrange(PREFIX_SIZE + c, n as int)[j - PREFIX_SIZE - c] == orig.subrange(
                    PREFIX_SIZE + c,
                    n as int,
                )[j - PREFIX_SIZE - c]);
            }
            assert(file@.subrange(0, c2) =~= full.subrange(0, c2));
            assert(file@.subrange(PREFIX_SIZE + c2, n as int) =~= orig.subrange(
                PREFIX_SIZE + c2,
                n as int,
            ));
        }
    }
    file.truncate(n - PREFIX_SIZE);
    proof {
        assert(file@ =~= full);
    }
    Ok(())
}

} // verus!
