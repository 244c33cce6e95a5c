use vstd::prelude::*;

verus! {

/// Length of the magic tag that opens every container.
pub const MAGIC_LEN: usize = 8;

/// Length of the salt that follows the magic tag.
pub const SALT_LEN: usize = 8;

/// Length of the whole header: magic tag and salt.
pub const HEADER_LEN: usize = 16;

/// The magic tag, `"Salted__"` in ASCII.
pub const MAGIC: [u8; 8] = [0x53, 0x61, 0x6c, 0x74, 0x65, 0x64, 0x5f, 0x5f];

/// Why a container could not be opened.
#[derive(Debug, Clone, Copy, PartialEq, Eq, Structural)]
pub enum DecryptError {
    /// The source ended before a fixed-size header field was complete.
    TruncatedInput,
    /// The first eight bytes are not the magic tag.
    MalformedContainer,
}

/// The magic tag as a sequence of bytes.
pub open spec fn magic_spec() -> Seq<u8> {
    seq![0x53u8, 0x61u8, 0x6cu8, 0x74u8, 0x65u8, 0x64u8, 0x5fu8, 0x5fu8]
}

/// Whether `bytes` begins with the magic tag.
pub open spec fn starts_with_magic(bytes: Seq<u8>) -> bool {
    bytes.len() >= MAGIC_LEN && bytes.subrange(0, MAGIC_LEN as int) == magic_spec()
}

/// The outcome of checking the first bytes of a source against the magic tag.
pub open spec fn magic_result(bytes: Seq<u8>) -> Result<(), DecryptError> {
    if bytes.len() < MAGIC_LEN {
        Err(DecryptError::TruncatedInput)
    } else if !starts_with_magic(bytes) {
        Err(DecryptError::MalformedContainer)
    } else {
        Ok(())
    }
}

/// The salt carried by a container that begins with `bytes`, or why there is none.
/// The tag is checked before the salt's length, as the header is read in that order.
pub open spec fn header_result(bytes: Seq<u8>) -> Result<Seq<u8>, DecryptError> {
    if bytes.len() < MAGIC_LEN {
        Err(DecryptError::TruncatedInput)
    } else if !starts_with_magic(bytes) {
        Err(DecryptError::MalformedContainer)
    } else if bytes.len() < HEADER_LEN {
        Err(DecryptError::TruncatedInput)
    } else {
        Ok(bytes.subrange(MAGIC_LEN as int, HEADER_LEN as int))
    }
}

proof fn lemma_magic_spec()
    ensures
        MAGIC@ == magic_spec(),
{
    assert(MAGIC@ =~= magic_spec());
}

/// Checks the first bytes read from a source against the magic tag: fewer than eight
/// bytes means the source was truncated, eight bytes other than the tag a malformed
/// container. Bytes past the eighth are not looked at.
pub fn check_magic(bytes: &[u8]) -> (r: Result<(), DecryptError>)
    ensures
        r == magic_result(bytes@),
{
    if bytes.len() < MAGIC_LEN {
        return Err(DecryptError::TruncatedInput);
    }
    proof {
        lemma_magic_spec();
    }
    let mut i: usize = 0;
    while i < MAGIC_LEN
        invariant
            i <= MAGIC_LEN,
            bytes@.len() >= MAGIC_LEN,
            MAGIC@ == magic_spec(),
            forall|k: int| 0 <= k < i ==> bytes@[k] == magic_spec()[k],
        decreases MAGIC_LEN - i,
    {
        if bytes[i] != MAGIC[i] {
            assert(bytes@.subrange(0, MAGIC_LEN as int)[i as int] != magic_spec()[i as int]);
            return Err(DecryptError::MalformedContainer);
        }
        i = i + 1;
    }
    assert(bytes@.subrange(0, MAGIC_LEN as int) =~= magic_spec());
    Ok(())
}

/// Reads the header from the first bytes of a container: the magic tag, then the
/// salt. `bytes` may hold more than the header; only its first sixteen bytes count.
pub fn parse_header(bytes: &[u8]) -> (r: Result<[u8; 8], DecryptError>)
    ensures
        r is Ok <==> header_result(bytes@) is Ok,
        r matches Ok(salt) ==> header_result(bytes@) == Ok::<Seq<u8>, DecryptError>(salt@),
        r matches Err(e) ==> header_result(bytes@) == Err::<Seq<u8>, DecryptError>(e),
{
    match check_magic(bytes) {
        Err(e) => {
            return Err(e);
        },
        Ok(()) => {},
    }
    if bytes.len() < HEADER_LEN {
        return Err(DecryptError::TruncatedInput);
    }
    let mut salt = [0u8; 8];
    let mut i: usize = 0;
    while i < SALT_LEN
        invariant
            i <= SALT_LEN,
            bytes@.len() >= HEADER_LEN,
            salt@.len() == SALT_LEN,
            forall|k: int| 0 <= k < i ==> salt@[k] == bytes@[MAGIC_LEN + k],
        decreases SALT_LEN - i,
    {
        salt[i] = bytes[MAGIC_LEN + i];
        i = i + 1;
    }
    assert(salt@ =~= bytes@.subrange(MAGIC_LEN as int, HEADER_LEN as int));
    Ok(salt)
}

/// The header depends on the first sixteen bytes alone: a prefix that holds them, or
/// the whole of a shorter source, gives the same outcome as the whole source.
pub proof fn lemma_header_of_prefix(bytes: Seq<u8>, n: int)
    requires
        0 <= n <= bytes.len(),
        n >= HEADER_LEN || n == bytes.len(),
    ensures
        header_result(bytes.subrange(0, n)) == header_result(bytes),
{
    let p = bytes.subrange(0, n);
    if p.len() >= MAGIC_LEN {
        assert(p.subrange(0, MAGIC_LEN as int) =~= bytes.subrange(0, MAGIC_LEN as int));
    }
    if p.len() >= HEADER_LEN {
        assert(p.subrange(MAGIC_LEN as int, HEADER_LEN as int) =~= bytes.subrange(MAGIC_LEN as int, HEADER_LEN as int));
    }
}

} // verus!
