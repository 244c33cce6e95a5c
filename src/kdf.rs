use vstd::prelude::*;

verus! {

/// Length of the cipher key at the start of the derived material.
pub const KEY_LEN: usize = 32;

/// Length of the little-endian starting block counter that follows the key.
pub const COUNTER_LEN: usize = 4;

/// Length of the nonce that ends the derived material.
pub const NONCE_LEN: usize = 12;

/// Length of the whole derived material.
pub const MATERIAL_LEN: usize = 48;

/// Iteration count of the key derivation.
pub const ROUNDS: u32 = 10_000;

/// The bytes that PBKDF2 with HMAC-SHA256 derives from a password and a salt, with
/// the given round count, truncated to `len` bytes.
pub uninterp spec fn pbkdf2_hmac_sha256(password: Seq<u8>, salt: Seq<u8>, rounds: u32, len: nat) -> Seq<u8>;

/// Relies on `pbkdf2::pbkdf2::<Hmac<Sha256>>`: it fills the output buffer with the
/// derived bytes, which depend on password, salt, round count and length alone. HMAC
/// accepts a key of any length, so the call never reports `InvalidLength`.
#[verifier::external_body]
fn pbkdf2_sha256(password: &[u8], salt: &[u8], rounds: u32, len: usize) -> (r: Vec<u8>)
    ensures
        r@ == pbkdf2_hmac_sha256(password@, salt@, rounds, len as nat),
        r@.len() == len,
{
    let mut out = vec![0u8; len];
    pbkdf2::pbkdf2::<hmac::Hmac<sha2::Sha256>>(password, salt, rounds, &mut out).unwrap();
    out
}

/// The value of four bytes read as a little-endian unsigned integer.
pub open spec fn le_u32_spec(b: Seq<u8>) -> nat {
    b[0] as nat + 0x100 * (b[1] as nat) + 0x1_0000 * (b[2] as nat) + 0x100_0000 * (b[3] as nat)
}

/// Reads four bytes as a little-endian `u32`.
pub fn read_u32_le(b: &[u8]) -> (r: u32)
    requires
        b@.len() == 4,
    ensures
        r as nat == le_u32_spec(b@),
{
    let v: u32 = b[0] as u32 + 0x100 * (b[1] as u32) + 0x1_0000 * (b[2] as u32) + 0x100_0000 * (
    b[3] as u32);
    v
}

/// Key material as the cipher takes it.
#[derive(Debug, Clone, Copy, PartialEq, Eq)]
pub struct KeyMaterial {
    pub key: [u8; 32],
    pub block_counter: u32,
    pub nonce: [u8; 12],
}

/// Mathematical view of [`KeyMaterial`].
pub struct KeyMaterialView {
    pub key: Seq<u8>,
    pub block_counter: nat,
    pub nonce: Seq<u8>,
}

impl View for KeyMaterial {
    type V = KeyMaterialView;

    open spec fn view(&self) -> KeyMaterialView {
        KeyMaterialView {
            key: self.key@,
            block_counter: self.block_counter as nat,
            nonce: self.nonce@,
        }
    }
}

/// How 48 derived bytes split: 32 bytes of key, a 4-byte little-endian starting
/// block counter, and 12 bytes of nonce.
pub open spec fn material_from(raw: Seq<u8>) -> KeyMaterialView {
    KeyMaterialView {
        key: raw.subrange(0, KEY_LEN as int),
        block_counter: le_u32_spec(raw.subrange(KEY_LEN as int, (KEY_LEN + COUNTER_LEN) as int)),
        nonce: raw.subrange((KEY_LEN + COUNTER_LEN) as int, MATERIAL_LEN as int),
    }
}

/// The 48 bytes that the key derivation produces from a password and a salt.
pub open spec fn derived_bytes(password: Seq<u8>, salt: Seq<u8>) -> Seq<u8> {
    pbkdf2_hmac_sha256(password, salt, ROUNDS, MATERIAL_LEN as nat)
}

/// The key material derived from a password and a salt.
pub open spec fn derived_material(password: Seq<u8>, salt: Seq<u8>) -> KeyMaterialView {
    material_from(derived_bytes(password, salt))
}

/// Splits 48 derived bytes into key, starting block counter and nonce.
pub fn split_key_material(raw: &[u8]) -> (r: KeyMaterial)
    requires
        raw@.len() == MATERIAL_LEN,
    ensures
        r@ == material_from(raw@),
{
    let mut key = [0u8; 32];
    let mut i: usize = 0;
    while i < KEY_LEN
        invariant
            i <= KEY_LEN,
            raw@.len() == MATERIAL_LEN,
            key@.len() == KEY_LEN,
            forall|k: int| 0 <= k < i ==> key@[k] == raw@[k],
        decreases KEY_LEN - i,
    {
        key[i] = raw[i];
        i = i + 1;
    }
    let block_counter = read_u32_le(&raw[KEY_LEN..KEY_LEN + COUNTER_LEN]);
    let mut nonce = [0u8; 12];
    let mut j: usize = 0;
    while j < NONCE_LEN
        invariant
            j <= NONCE_LEN,
            raw@.len() == MATERIAL_LEN,
            nonce@.len() == NONCE_LEN,
            forall|k: int| 0 <= k < j ==> nonce@[k] == raw@[KEY_LEN + COUNTER_LEN + k],
        decreases NONCE_LEN - j,
    {
        nonce[j] = raw[KEY_LEN + COUNTER_LEN + j];
        j = j + 1;
    }
    let r = KeyMaterial { key, block_counter, nonce };
    assert(r@.key =~= material_from(raw@).key);
    assert(r@.nonce =~= material_from(raw@).nonce);
    r
}

/// Derives the key material for a container from the password and the container's
/// salt. This is deliberately slow: ten thousand rounds of HMAC-SHA256.
pub fn derive_key_material(password: &[u8], salt: &[u8; 8]) -> (r: KeyMaterial)
    ensures
        r@ == derived_material(password@, salt@),
{
    let raw = pbkdf2_sha256(password, salt.as_slice(), ROUNDS, MATERIAL_LEN);
    split_key_material(raw.as_slice())
}

/// Key derivation is a function of its inputs: two derivations from the same
/// password and salt give the same key material.
pub proof fn lemma_derivation_deterministic(
    password: Seq<u8>,
    salt: Seq<u8>,
    first: KeyMaterial,
    second: KeyMaterial,
)
    requires
        first@ == derived_material(password, salt),
        second@ == derived_material(password, salt),
    ensures
        first@ == second@,
        first.key@ == second.key@,
        first.block_counter == second.block_counter,
        first.nonce@ == second.nonce@,
{
}

} // verus!
