//! The in-place streamers as state machines. A driver reads a chunk at
//! `read_offset()`, hands it to `absorb`, and writes the returned bytes at the
//! returned offset, until `is_done()`; it then sets the file to
//! `final_length()`.

use vstd::prelude::*;
use crate::cipher::{combine_chunk, combine_stream, encrypted, Combiner, PREFIX_SIZE};
use crate::prefix::generate_prefix;

verus! {

/// Why a transform cannot start.
#[derive(Debug, Clone, Copy, PartialEq, Eq, Structural)]
pub enum CipherError {
    /// The key holds no byte.
    EmptyKey,
    /// A file to decrypt is shorter than the prefix.
    FileTooShort,
}

/// Bytes to be written at a file offset.
pub struct PendingWrite {
    pub offset: u64,
    pub bytes: Vec<u8>,
}

/// Encrypting streamer. Plaintext read at offset `j` is written back at
/// offset `j + PREFIX_SIZE`; the transformed prefix goes to the file start.
/// The last `PREFIX_SIZE` transformed bytes are held back until the bytes
/// they will overwrite have been read.
pub struct Encryptor<C: Combiner> {
    combiner: C,
    key: Vec<u8>,
    file_size: u64,
    read_offset: u64,
    key_index: usize,
    staging: Vec<u8>,
    done: bool,
    prefix: Ghost<Seq<u8>>,
    consumed: Ghost<Seq<u8>>,
}

impl<C: Combiner> Encryptor<C> {
    /// The key.
    pub closed spec fn key(&self) -> Seq<u8> {
        self.key@
    }

    /// Length of the plaintext file.
    pub closed spec fn file_size(&self) -> nat {
        self.file_size as nat
    }

    /// The prefix placed before the plaintext.
    pub closed spec fn prefix(&self) -> Seq<u8> {
        self.prefix@
    }

    /// The plaintext absorbed so far, from the file start.
    pub closed spec fn consumed(&self) -> Seq<u8> {
        self.consumed@
    }

    /// Whether the last write has been handed out.
    pub closed spec fn done(&self) -> bool {
        self.done
    }

    pub closed spec fn wf(&self) -> bool {
        &&& self.key@.len() > 0
        &&& self.prefix@.len() == PREFIX_SIZE
        &&& self.consumed@.len() == self.read_offset
        &&& self.read_offset <= self.file_size
        &&& self.file_size + PREFIX_SIZE <= u64::MAX
        &&& self.key_index == (self.read_offset + PREFIX_SIZE) % (self.key@.len() as int)
        &&& !self.done ==> self.staging@ == encrypted::<C>(self.consumed@, self.key@, self.prefix@).subrange(
            self.read_offset as int,
            self.read_offset + PREFIX_SIZE,
        )
        &&& self.done ==> self.read_offset == self.file_size
    }

    /// Starts encrypting a file of `file_size` bytes behind `prefix`.
    /// Fails exactly when the key is empty.
    pub fn new(key: Vec<u8>, file_size: u64, prefix: Vec<u8>, combiner: C) -> (r: Result<Encryptor<C>, CipherError>)
        requires
            prefix@.len() == PREFIX_SIZE,
            file_size + PREFIX_SIZE <= u64::MAX,
        ensures
            r is Err <==> key@.len() == 0,
            r matches Err(e) ==> e == CipherError::EmptyKey,
            r matches Ok(e) ==> {
                &&& e.wf()
                &&& e.key() == key@
                &&& e.file_size() == file_size
                &&& e.prefix() == prefix@
                &&& e.consumed() == Seq::<u8>::empty()
                &&& !e.done()
            },
    {
        if key.len() == 0 {
            return Err(CipherError::EmptyKey);
        }
        let mut staging: Vec<u8> = Vec::with_capacity(PREFIX_SIZE + crate::cipher::BUFFER_SIZE);
        let next = combine_chunk(&combiner, &mut staging, prefix.as_slice(), &key, 0, Ghost(0));
        proof {
            assert(staging@ =~= encrypted::<C>(Seq::<u8>::empty(), key@, prefix@).subrange(0, PREFIX_SIZE as int));
        }
        Ok(Encryptor {
            combiner,
            key,
            file_size,
            read_offset: 0,
            key_index: next,
            staging,
            done: false,
            prefix: Ghost(prefix@),
            consumed: Ghost(Seq::empty()),
        })
    }

    /// Starts encrypting a file of `file_size` bytes behind a freshly drawn
    /// random prefix. Fails exactly when the key is empty.
    pub fn with_random_prefix(key: Vec<u8>, file_size: u64, combiner: C) -> (r: Result<Encryptor<C>, CipherError>)
        requires
            file_size + PREFIX_SIZE <= u64::MAX,
        ensures
            r is Err <==> key@.len() == 0,
            r matches Err(e) ==> e == CipherError::EmptyKey,
            r matches Ok(e) ==> {
                &&& e.wf()
                &&& e.key() == key@
                &&& e.file_size() == file_size
                &&& e.prefix().len() == PREFIX_SIZE
                &&& e.consumed() == Seq::<u8>::empty()
                &&& !e.done()
            },
    {
        let prefix = generate_prefix(PREFIX_SIZE);
        Encryptor::new(key, file_size, prefix, combiner)
    }

    /// The offset of the next read.
    pub fn read_offset(&self) -> (r: u64)
        requires
            self.wf(),
        ensures
            r == self.consumed().len(),
            r <= self.file_size(),
    {
        self.read_offset
    }

    /// Whether the transform is complete.
    pub fn is_done(&self) -> (r: bool)
        ensures
            r == self.done(),
    {
        self.done
    }

    /// The length of the file once encrypted.
    pub fn final_length(&self) -> (r: u64)
        requires
            self.wf(),
        ensures
            r == self.file_size() + PREFIX_SIZE,
    {
        self.file_size + PREFIX_SIZE as u64
    }

    /// Takes the bytes read at `read_offset()` and returns what to write:
    /// the ciphertext of the positions that are now safe to overwrite, and,
    /// once the whole file has been read, everything that remains.
    pub fn absorb(&mut self, chunk: &[u8]) -> (w: PendingWrite)
        requires
            old(self).wf(),
            !old(self).done(),
            old(self).consumed().len() + chunk@.len() <= old(self).file_size(),
        ensures
            final(self).wf(),
            final(self).key() == old(self).key(),
            final(self).file_size() == old(self).file_size(),
            final(self).prefix() == old(self).prefix(),
            final(self).consumed() == old(self).consumed() + chunk@,
            final(self).done() == (final(self).consumed().len() == final(self).file_size()),
            w.offset == old(self).consumed().len(),
            w.bytes@ == encrypted::<C>(final(self).consumed(), final(self).key(), final(self).prefix()).subrange(
                old(self).consumed().len() as int,
                final(self).consumed().len() + if final(self).done() { PREFIX_SIZE as int } else { 0 },
            ),
    {
        let ghost old_consumed = self.consumed@;
        let ghost ro = self.read_offset as int;
        let ghost k = self.key@.len() as int;
        let next = combine_chunk(&self.combiner, &mut self.staging, chunk, &self.key, self.key_index, Ghost(ro + PREFIX_SIZE));
        let start = self.read_offset;
        let r = chunk.len();
        self.read_offset = self.read_offset + r as u64;
        self.key_index = next;
        self.consumed = Ghost(old_consumed + chunk@);
        let ghost full = encrypted::<C>(self.consumed@, self.key@, self.prefix@);
        let ghost before = encrypted::<C>(old_consumed, self.key@, self.prefix@);
        proof {
            assert forall|i: int| 0 <= i < before.len() implies full[i] == before[i] by {
                assert((self.prefix@ + self.consumed@)[i] == (self.prefix@ + old_consumed)[i]);
            }
            assert(self.staging@ =~= full.subrange(ro, ro + PREFIX_SIZE + r));
        }
        if self.read_offset == self.file_size {
            self.done = true;
            let mut bytes: Vec<u8> = Vec::new();
            std::mem::swap(&mut bytes, &mut self.staging);
            PendingWrite { offset: start, bytes }
        } else {
            let mut bytes = self.staging.split_off(r);
            std::mem::swap(&mut bytes, &mut self.staging);
            proof {
                assert(bytes@ =~= full.subrange(ro, ro + r));
                assert(self.staging@ =~= full.subrange(self.read_offset as int, self.read_offset + PREFIX_SIZE));
            }
            PendingWrite { offset: start, bytes }
        }
    }
}

/// Decrypting streamer. Ciphertext read at offset `j`, from `PREFIX_SIZE`
/// on, is written back at offset `j - PREFIX_SIZE`; each write lands on bytes
/// already read. The driver cuts the file to `final_length()` at the end.
pub struct Decryptor<C: Combiner> {
    combiner: C,
    key: Vec<u8>,
    file_size: u64,
    read_offset: u64,
    key_index: usize,
    done: bool,
    consumed: Ghost<Seq<u8>>,
}

impl<C: Combiner> Decryptor<C> {
    /// The key.
    pub closed spec fn key(&self) -> Seq<u8> {
        self.key@
    }

    /// Length of the encrypted file.
    pub closed spec fn file_size(&self) -> nat {
        self.file_size as nat
    }

    /// The ciphertext absorbed so far, from the end of the prefix.
    pub closed spec fn consumed(&self) -> Seq<u8> {
        self.consumed@
    }

    /// Whether the last write has been handed out.
    pub closed spec fn done(&self) -> bool {
        self.done
    }

    pub closed spec fn wf(&self) -> bool {
        &&& self.key@.len() > 0
        &&& self.file_size >= PREFIX_SIZE
        &&& self.read_offset == PREFIX_SIZE + self.consumed@.len()
        &&& self.read_offset <= self.file_size
        &&& self.key_index == (self.read_offset as int) % (self.key@.len() as int)
        &&& self.done ==> self.read_offset == self.file_size
    }

    /// Starts decrypting a file of `file_size` bytes. Fails on an empty key,
    /// and otherwise on a file shorter than the prefix.
    pub fn new(key: Vec<u8>, file_size: u64, combiner: C) -> (r: Result<Decryptor<C>, CipherError>)
        ensures
            r is Ok <==> key@.len() > 0 && file_size >= PREFIX_SIZE,
            r == Err::<Decryptor<C>, _>(CipherError::EmptyKey) <==> key@.len() == 0,
            r == Err::<Decryptor<C>, _>(CipherError::FileTooShort) <==> key@.len() > 0 && file_size < PREFIX_SIZE,
            r matches Ok(d) ==> {
                &&& d.wf()
                &&& d.key() == key@
                &&& d.file_size() == file_size
                &&& d.consumed() == Seq::<u8>::empty()
                &&& !d.done()
            },
    {
        if key.len() == 0 {
            return Err(CipherError::EmptyKey);
        }
        if file_size < PREFIX_SIZE as u64 {
            return Err(CipherError::FileTooShort);
        }
        let key_index = PREFIX_SIZE % key.len();
        Ok(Decryptor {
            combiner,
            key,
            file_size,
            read_offset: PREFIX_SIZE as u64,
            key_index,
            done: false,
            consumed: Ghost(Seq::empty()),
        })
    }

    /// The offset of the next read.
    pub fn read_offset(&self) -> (r: u64)
        requires
            self.wf(),
        ensures
            r == PREFIX_SIZE + self.consumed().len(),
            r <= self.file_size(),
    {
        self.read_offset
    }

    /// Whether the transform is complete.
    pub fn is_done(&self) -> (r: bool)
        ensures
            r == self.done(),
    {
        self.done
    }

    /// The length of the file once decrypted.
    pub fn final_length(&self) -> (r: u64)
        requires
            self.wf(),
        ensures
            r == self.file_size() - PREFIX_SIZE,
    {
        self.file_size - PREFIX_SIZE as u64
    }

    /// Takes the bytes read at `read_offset()` and returns their plaintext,
    /// to be written `PREFIX_SIZE` bytes earlier in the file.
    pub fn absorb(&mut self, chunk: &[u8]) -> (w: PendingWrite)
        requires
            old(self).wf(),
            !old(self).done(),
            PREFIX_SIZE + old(self).consumed().len() + chunk@.len() <= old(self).file_size(),
        ensures
            final(self).wf(),
            final(self).key() == old(self).key(),
            final(self).file_size() == old(self).file_size(),
            final(self).consumed() == old(self).consumed() + chunk@,
            final(self).done() == (PREFIX_SIZE + final(self).consumed().len() == final(self).file_size()),
            w.offset == old(self).consumed().len(),
            w.bytes@ == combine_stream::<C>(chunk@, old(self).key(), PREFIX_SIZE + old(self).consumed().len()),
    {
        let mut bytes: Vec<u8> = Vec::with_capacity(chunk.len());
        let ghost ro: int = self.read_offset as int;
        let next = combine_chunk(&self.combiner, &mut bytes, chunk, &self.key, self.key_index, Ghost(ro));
        proof {
            assert(bytes@ =~= combine_stream::<C>(chunk@, self.key@, self.read_offset as int));
        }
        let start = self.read_offset - PREFIX_SIZE as u64;
        self.read_offset = self.read_offset + chunk.len() as u64;
        self.key_index = next;
        self.consumed = Ghost(self.consumed@ + chunk@);
        if self.read_offset == self.file_size {
            self.done = true;
        }
        PendingWrite { offset: start, bytes }
    }
}

} // verus!
