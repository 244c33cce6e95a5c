use vstd::prelude::*;

use chacha20::cipher::{KeyIvInit, StreamCipher, StreamCipherSeek};

use crate::kdf::KeyMaterial;

verus! {

/// Bytes of keystream in one ChaCha20 block.
pub const BLOCK_LEN: u64 = 64;

/// The first keystream position that can no longer be used. The 32-bit block
/// counter stops short of its largest value, so the last usable block is
/// `u32::MAX - 1`.
pub const KEYSTREAM_END: u64 = 64 * 0xffff_ffff;

/// The ChaCha20 keystream byte at byte position `pos` for a 32-byte key and a
/// 12-byte nonce.
pub uninterp spec fn chacha20_keystream_byte(key: Seq<u8>, nonce: Seq<u8>, pos: int) -> u8;

/// `len` keystream bytes starting at byte position `start`.
pub open spec fn keystream(key: Seq<u8>, nonce: Seq<u8>, start: int, len: nat) -> Seq<u8> {
    Seq::new(len, |i: int| chacha20_keystream_byte(key, nonce, start + i))
}

/// Bytewise exclusive-or of `data` with the first `data.len()` bytes of `ks`.
pub open spec fn xor_bytes(data: Seq<u8>, ks: Seq<u8>) -> Seq<u8> {
    Seq::new(data.len(), |i: int| data[i] ^ ks[i])
}

/// What the cipher makes of `data` when the keystream is at byte position `start`.
pub open spec fn transform(key: Seq<u8>, nonce: Seq<u8>, start: int, data: Seq<u8>) -> Seq<u8> {
    xor_bytes(data, keystream(key, nonce, start, data.len()))
}

/// Relies on `chacha20::ChaCha20` through `KeyIvInit::new`, `StreamCipherSeek::seek`
/// and `StreamCipher::apply_keystream`: after a seek to byte `pos`, each byte of
/// `buf` is XORed with the keystream byte at its position, which depends on key,
/// nonce and position alone. The seek and the application panic past the last
/// usable block, which `requires` rules out.
#[verifier::external_body]
fn chacha20_xor_at(key: &[u8; 32], nonce: &[u8; 12], pos: u64, buf: &mut [u8])
    requires
        pos + old(buf)@.len() <= KEYSTREAM_END,
    ensures
        final(buf)@.len() == old(buf)@.len(),
        forall|i: int|
            0 <= i < old(buf)@.len() ==> #[trigger] final(buf)@[i] == old(buf)@[i]
                ^ chacha20_keystream_byte(key@, nonce@, pos + i),
{
    let mut cipher = chacha20::ChaCha20::new(key.into(), nonce.into());
    cipher.seek(pos);
    cipher.apply_keystream(buf);
}

/// The state of a stream cipher: key, nonce, and the byte position of the next
/// keystream byte.
pub struct CipherState {
    pub key: Seq<u8>,
    pub nonce: Seq<u8>,
    pub pos: nat,
}

/// A ChaCha20 stream cipher (32-byte key, 12-byte nonce, 32-bit block counter)
/// that remembers its keystream position, so that successive calls continue the
/// keystream where the previous one stopped.
pub struct Cipher {
    key: [u8; 32],
    nonce: [u8; 12],
    pos: u64,
}

impl View for Cipher {
    type V = CipherState;

    closed spec fn view(&self) -> CipherState {
        CipherState { key: self.key@, nonce: self.nonce@, pos: self.pos as nat }
    }
}

/// The cipher state that key material sets up: the position is the start of the
/// material's block counter.
pub open spec fn initial_state(key: Seq<u8>, nonce: Seq<u8>, block_counter: nat) -> CipherState {
    CipherState { key, nonce, pos: block_counter * BLOCK_LEN as nat }
}

impl Cipher {
    /// Sets up a cipher from key material, positioned at the start of the
    /// material's block counter.
    pub fn new(material: &KeyMaterial) -> (r: Cipher)
        ensures
            r@ == initial_state(material.key@, material.nonce@, material.block_counter as nat),
            r@.pos <= KEYSTREAM_END,
    {
        let pos: u64 = material.block_counter as u64 * BLOCK_LEN;
        Cipher { key: material.key, nonce: material.nonce, pos }
    }

    /// Byte position of the next keystream byte.
    pub fn position(&self) -> (r: u64)
        ensures
            r as nat == self@.pos,
    {
        self.pos
    }

    /// How many more bytes the keystream can cover.
    pub fn remaining(&self) -> (r: u64)
        ensures
            r as nat == if self@.pos <= KEYSTREAM_END {
                KEYSTREAM_END - self@.pos
            } else {
                0
            },
    {
        if self.pos <= KEYSTREAM_END {
            KEYSTREAM_END - self.pos
        } else {
            0
        }
    }

    /// Decrypts (or encrypts) `buf` in place with the next `buf.len()` keystream
    /// bytes, and moves the position past them.
    pub fn apply_keystream(&mut self, buf: &mut [u8])
        requires
            old(self)@.pos + old(buf)@.len() <= KEYSTREAM_END,
        ensures
            final(buf)@ == transform(old(self)@.key, old(self)@.nonce, old(self)@.pos as int, old(buf)@),
            final(self)@ == (CipherState { pos: old(self)@.pos + old(buf)@.len(), ..old(self)@ }),
    {
        let len = buf.len();
        chacha20_xor_at(&self.key, &self.nonce, self.pos, buf);
        assert(buf@ =~= transform(old(self)@.key, old(self)@.nonce, old(self)@.pos as int, old(buf)@));
        self.pos = self.pos + len as u64;
    }
}

/// What the cipher makes of a sequence of chunks handed to it one after another,
/// starting at byte position `start`, each chunk continuing where the previous
/// one stopped.
pub open spec fn transform_chunks(key: Seq<u8>, nonce: Seq<u8>, start: int, chunks: Seq<Seq<u8>>) -> Seq<u8>
    decreases chunks.len(),
{
    if chunks.len() == 0 {
        Seq::empty()
    } else {
        transform(key, nonce, start, chunks[0]) + transform_chunks(
            key,
            nonce,
            start + chunks[0].len(),
            chunks.drop_first(),
        )
    }
}

/// Chunk boundaries do not matter: transforming a buffer split into two adjacent
/// pieces, the second continuing at the position where the first stopped, gives the
/// same bytes as transforming the whole buffer at once.
pub proof fn lemma_split_transform(key: Seq<u8>, nonce: Seq<u8>, start: int, first: Seq<u8>, second: Seq<u8>)
    ensures
        transform(key, nonce, start, first + second) == transform(key, nonce, start, first)
            + transform(key, nonce, start + first.len(), second),
{
    let whole = transform(key, nonce, start, first + second);
    let parts = transform(key, nonce, start, first) + transform(key, nonce, start + first.len(), second);
    assert forall|i: int| 0 <= i < whole.len() implies whole[i] == parts[i] by {
        if i >= first.len() {
            assert(start + first.len() + (i - first.len()) == start + i);
        }
    }
    assert(whole =~= parts);
}

/// However a byte sequence is cut into chunks, handing the chunks to the cipher one
/// after another gives the transform of the whole sequence.
pub proof fn lemma_transform_chunks(key: Seq<u8>, nonce: Seq<u8>, start: int, chunks: Seq<Seq<u8>>)
    ensures
        transform_chunks(key, nonce, start, chunks) == transform(key, nonce, start, chunks.flatten()),
    decreases chunks.len(),
{
    if chunks.len() == 0 {
        assert(transform(key, nonce, start, chunks.flatten()) =~= Seq::<u8>::empty());
    } else {
        lemma_transform_chunks(key, nonce, start + chunks[0].len(), chunks.drop_first());
        lemma_split_transform(key, nonce, start, chunks[0], chunks.drop_first().flatten());
    }
}

/// The cipher is its own inverse: transforming twice at the same position gives
/// the original bytes back.
pub proof fn lemma_transform_involutive(key: Seq<u8>, nonce: Seq<u8>, start: int, data: Seq<u8>)
    ensures
        transform(key, nonce, start, transform(key, nonce, start, data)) == data,
{
    let twice = transform(key, nonce, start, transform(key, nonce, start, data));
    assert forall|i: int| 0 <= i < data.len() implies twice[i] == data[i] by {
        let x = data[i];
        let k = chacha20_keystream_byte(key, nonce, start + i);
        assert((x ^ k) ^ k == x) by (bit_vector);
    }
    assert(twice =~= data);
}

/// Round trip across any chunking: bytes encrypted in one chunking and decrypted in
/// another, with the same key, nonce and starting position, come back unchanged.
pub proof fn lemma_round_trip_chunked(
    key: Seq<u8>,
    nonce: Seq<u8>,
    start: int,
    plaintext: Seq<u8>,
    encrypt_chunks: Seq<Seq<u8>>,
    decrypt_chunks: Seq<Seq<u8>>,
)
    requires
        encrypt_chunks.flatten() == plaintext,
        decrypt_chunks.flatten() == transform_chunks(key, nonce, start, encrypt_chunks),
    ensures
        transform_chunks(key, nonce, start, decrypt_chunks) == plaintext,
{
    lemma_transform_chunks(key, nonce, start, encrypt_chunks);
    lemma_transform_chunks(key, nonce, start, decrypt_chunks);
    lemma_transform_involutive(key, nonce, start, plaintext);
}

} // verus!
