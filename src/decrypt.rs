use vstd::prelude::*;

use crate::cipher::{initial_state, transform, transform_chunks, Cipher, CipherState};
use crate::cipher::{lemma_round_trip_chunked, lemma_transform_chunks};
use crate::container::{
    header_result, magic_spec, parse_header, starts_with_magic, DecryptError, HEADER_LEN,
    MAGIC_LEN,
};
use crate::kdf::{derive_key_material, derived_material};

verus! {

/// The cipher state with which the body of a container with this salt is
/// decrypted under this password.
pub open spec fn body_cipher_state(password: Seq<u8>, salt: Seq<u8>) -> CipherState {
    let m = derived_material(password, salt);
    initial_state(m.key, m.nonce, m.block_counter)
}

/// The plaintext of a whole container under a password, or why there is none. The
/// body is everything after the sixteen header bytes; no error can come from the
/// body, since nothing checks its integrity.
pub open spec fn container_plaintext(container: Seq<u8>, password: Seq<u8>) -> Result<Seq<u8>, DecryptError> {
    match header_result(container) {
        Err(e) => Err(e),
        Ok(salt) => {
            let st = body_cipher_state(password, salt);
            Ok(transform(st.key, st.nonce, st.pos as int, container.subrange(HEADER_LEN as int, container.len() as int)))
        },
    }
}

/// Opens a container for decryption: reads the header from its first bytes,
/// derives the key material from the password and the salt, and sets the cipher
/// at the starting position that the material gives. The returned cipher decrypts
/// the body, the bytes after the header, in order and in chunks of any size.
/// `header` may hold more than the sixteen header bytes; the rest is not read.
pub fn decrypt(header: &[u8], password: &[u8]) -> (r: Result<Cipher, DecryptError>)
    ensures
        r is Ok <==> header_result(header@) is Ok,
        r matches Err(e) ==> header_result(header@) == Err::<Seq<u8>, DecryptError>(e),
        r matches Ok(c) ==> c@ == body_cipher_state(password@, header_result(header@)->Ok_0),
{
    let salt = match parse_header(header) {
        Ok(salt) => salt,
        Err(e) => {
            return Err(e);
        },
    };
    let material = derive_key_material(password, &salt);
    Ok(Cipher::new(&material))
}

/// The container that encrypting `plaintext` under `password` with `salt` gives,
/// the plaintext handed to the cipher in `chunks`.
pub open spec fn encrypted_container(password: Seq<u8>, salt: Seq<u8>, chunks: Seq<Seq<u8>>) -> Seq<u8> {
    let st = body_cipher_state(password, salt);
    magic_spec() + salt + transform_chunks(st.key, st.nonce, st.pos as int, chunks)
}

/// Round trip: a container encrypted under a password, the plaintext cut into any
/// chunks, opens under the same password, and its body handed to the cipher in any
/// other chunks gives back the plaintext byte for byte.
pub proof fn lemma_container_round_trip(
    password: Seq<u8>,
    salt: Seq<u8>,
    plaintext: Seq<u8>,
    encrypt_chunks: Seq<Seq<u8>>,
    decrypt_chunks: Seq<Seq<u8>>,
)
    requires
        salt.len() == 8,
        encrypt_chunks.flatten() == plaintext,
        decrypt_chunks.flatten() == encrypted_container(password, salt, encrypt_chunks).subrange(
            HEADER_LEN as int,
            encrypted_container(password, salt, encrypt_chunks).len() as int,
        ),
    ensures
        header_result(encrypted_container(password, salt, encrypt_chunks)) == Ok::<Seq<u8>, DecryptError>(salt),
        ({
            let st = body_cipher_state(password, salt);
            transform_chunks(st.key, st.nonce, st.pos as int, decrypt_chunks) == plaintext
        }),
        container_plaintext(encrypted_container(password, salt, encrypt_chunks), password)
            == Ok::<Seq<u8>, DecryptError>(plaintext),
{
    let st = body_cipher_state(password, salt);
    let body = transform_chunks(st.key, st.nonce, st.pos as int, encrypt_chunks);
    let c = encrypted_container(password, salt, encrypt_chunks);
    assert(c.subrange(0, MAGIC_LEN as int) =~= magic_spec());
    assert(c.subrange(MAGIC_LEN as int, HEADER_LEN as int) =~= salt);
    assert(c.subrange(HEADER_LEN as int, c.len() as int) =~= body);
    lemma_round_trip_chunked(st.key, st.nonce, st.pos as int, plaintext, encrypt_chunks, decrypt_chunks);
    lemma_transform_chunks(st.key, st.nonce, st.pos as int, decrypt_chunks);
}

/// A container whose first eight bytes are not the magic tag is malformed, whatever
/// the password, and yields no plaintext.
pub proof fn lemma_bad_magic_rejected(container: Seq<u8>, password: Seq<u8>)
    requires
        container.len() >= MAGIC_LEN,
        container.subrange(0, MAGIC_LEN as int) != magic_spec(),
    ensures
        container_plaintext(container, password) == Err::<Seq<u8>, DecryptError>(DecryptError::MalformedContainer),
{
}

/// A container shorter than the header is truncated, unless it already shows eight
/// bytes that are not the magic tag (then it is malformed, as the tag is read first).
pub proof fn lemma_short_container_truncated(container: Seq<u8>, password: Seq<u8>)
    requires
        container.len() < HEADER_LEN,
        container.len() < MAGIC_LEN || starts_with_magic(container),
    ensures
        container_plaintext(container, password) == Err::<Seq<u8>, DecryptError>(DecryptError::TruncatedInput),
{
}

} // verus!
