use vstd::prelude::*;

verus! {

/// Longest credential accepted after the `Basic ` scheme word, in bytes.
pub const MAX_CREDENTIAL_LEN: usize = 2048;

/// Why a request is turned away before any file is opened.
#[derive(Debug, Clone, Copy, PartialEq, Eq, Structural)]
pub enum Rejection {
    /// The path names something other than plain file names under the root.
    NotFound,
    /// The request carries no credential.
    Unauthorized,
    /// The credential is not of the `Basic` scheme, or is too long.
    BadRequest,
}

/// `s` is where the run of slashes that opens `path` ends.
pub open spec fn slash_run_end(path: Seq<u8>, s: int) -> bool {
    &&& 0 <= s <= path.len()
    &&& forall|k: int| 0 <= k < s ==> path[k] == 0x2f
    &&& s == path.len() || path[s] != 0x2f
}

/// A path component `..` stands at `i` in `t`.
pub open spec fn parent_component_at(t: Seq<u8>, i: int) -> bool {
    &&& 0 <= i
    &&& i + 2 <= t.len()
    &&& t[i] == 0x2e && t[i + 1] == 0x2e
    &&& i == 0 || t[i - 1] == 0x2f
    &&& i + 2 == t.len() || t[i + 2] == 0x2f
}

/// A relative path whose components are all plain names: it does not begin with a
/// `.` component (a `.` further on is no component at all) and has no `..`
/// component anywhere.
pub open spec fn plain_relative(t: Seq<u8>) -> bool {
    &&& !(t.len() >= 1 && t[0] == 0x2e && (t.len() == 1 || t[1] == 0x2f))
    &&& forall|i: int| !parent_component_at(t, i)
}

/// Once its leading slashes are dropped, the request path is a plain relative path.
pub open spec fn plain_path(path: Seq<u8>) -> bool {
    forall|s: int| slash_run_end(path, s) ==> plain_relative(path.subrange(s, path.len() as int))
}

/// Checks that a request path, once its leading slashes are dropped, names a file
/// by plain components only, so that it cannot leave the directory it is served from.
pub fn is_plain_path(path: &[u8]) -> (r: bool)
    ensures
        r == plain_path(path@),
{
    let n = path.len();
    let mut s: usize = 0;
    while s < n && path[s] == 0x2f
        invariant
            s <= n,
            n == path@.len(),
            forall|k: int| 0 <= k < s ==> path@[k] == 0x2f,
        decreases n - s,
    {
        s = s + 1;
    }
    assert(slash_run_end(path@, s as int));
    assert(forall|s2: int| slash_run_end(path@, s2) ==> s2 == s);
    let ghost t = path@.subrange(s as int, n as int);
    if s < n && path[s] == 0x2e && (s + 1 == n || path[s + 1] == 0x2f) {
        assert(!plain_relative(t));
        return false;
    }
    let mut i: usize = s;
    while n - i >= 2
        invariant
            s <= i <= n,
            s <= n,
            n == path@.len(),
            t == path@.subrange(s as int, n as int),
            slash_run_end(path@, s as int),
            forall|s2: int| slash_run_end(path@, s2) ==> s2 == s,
            !(t.len() >= 1 && t[0] == 0x2e && (t.len() == 1 || t[1] == 0x2f)),
            forall|j: int| 0 <= j < i - s ==> !parent_component_at(t, j),
        decreases n - i,
    {
        if path[i] == 0x2e && path[i + 1] == 0x2e && (i == s || path[i - 1] == 0x2f) && (i + 2 == n
            || path[i + 2] == 0x2f) {
            assert(parent_component_at(t, i - s));
            assert(!plain_relative(t));
            return false;
        }
        i = i + 1;
    }
    assert(forall|j: int| !parent_component_at(t, j));
    true
}

/// `c` is the lower-case ASCII letter `lower` in either case.
pub open spec fn ascii_letter_ignoring_case(c: u8, lower: u8) -> bool {
    c == lower || c == lower - 32
}

/// The header value opens with the scheme word `Basic` in any case, then one space.
pub open spec fn has_basic_prefix(value: Seq<u8>) -> bool {
    &&& value.len() >= 6
    &&& ascii_letter_ignoring_case(value[0], 0x62)
    &&& ascii_letter_ignoring_case(value[1], 0x61)
    &&& ascii_letter_ignoring_case(value[2], 0x73)
    &&& ascii_letter_ignoring_case(value[3], 0x69)
    &&& ascii_letter_ignoring_case(value[4], 0x63)
    &&& value[5] == 0x20
}

/// The credential of an `Authorization` header value, or `None` where the scheme is
/// not `Basic` or the credential is too long.
pub open spec fn basic_credential_spec(value: Seq<u8>) -> Option<Seq<u8>> {
    if has_basic_prefix(value) && value.len() - 6 <= MAX_CREDENTIAL_LEN {
        Some(value.subrange(6, value.len() as int))
    } else {
        None
    }
}

fn letter_ignoring_case(c: u8, lower: u8) -> (r: bool)
    requires
        lower >= 0x61,
    ensures
        r == ascii_letter_ignoring_case(c, lower),
{
    c == lower || c == lower - 32
}

/// Takes the credential out of an `Authorization` header value of the `Basic`
/// scheme (matched in any case). The credential is kept as it stands: it is the
/// password, never decoded.
pub fn basic_credential(value: &[u8]) -> (r: Option<Vec<u8>>)
    ensures
        r matches Some(c) ==> basic_credential_spec(value@) == Some(c@),
        r is None ==> basic_credential_spec(value@) is None,
{
    let n = value.len();
    if n < 6 {
        return None;
    }
    if !(letter_ignoring_case(value[0], 0x62) && letter_ignoring_case(value[1], 0x61)
        && letter_ignoring_case(value[2], 0x73) && letter_ignoring_case(value[3], 0x69)
        && letter_ignoring_case(value[4], 0x63) && value[5] == 0x20) {
        return None;
    }
    if n - 6 > MAX_CREDENTIAL_LEN {
        return None;
    }
    let mut out: Vec<u8> = Vec::with_capacity(n - 6);
    let mut i: usize = 6;
    while i < n
        invariant
            6 <= i <= n,
            n == value@.len(),
            out@ == value@.subrange(6, i as int),
        decreases n - i,
    {
        out.push(value[i]);
        i = i + 1;
        assert(out@ =~= value@.subrange(6, i as int));
    }
    Some(out)
}

/// The bytes of an optional header value.
pub open spec fn header_view(value: Option<&[u8]>) -> Option<Seq<u8>> {
    match value {
        Some(v) => Some(v@),
        None => None,
    }
}

/// The outcome of the checks made on a request before its file is opened.
pub open spec fn authorize_spec(path: Seq<u8>, authorization: Option<Seq<u8>>) -> Result<Seq<u8>, Rejection> {
    if !plain_path(path) {
        Err(Rejection::NotFound)
    } else {
        match authorization {
            None => Err(Rejection::Unauthorized),
            Some(value) => match basic_credential_spec(value) {
                None => Err(Rejection::BadRequest),
                Some(c) => Ok(c),
            },
        }
    }
}

/// Checks a request before its file is opened: first the path, then the presence of
/// an `Authorization` header, then its scheme and length. On success returns the
/// password with which the file is to be decrypted.
pub fn authorize(path: &[u8], authorization: Option<&[u8]>) -> (r: Result<Vec<u8>, Rejection>)
    ensures
        r is Ok <==> authorize_spec(path@, header_view(authorization)) is Ok,
        r matches Ok(c) ==> authorize_spec(path@, header_view(authorization)) == Ok::<Seq<u8>, Rejection>(c@),
        r matches Err(e) ==> authorize_spec(path@, header_view(authorization)) == Err::<Seq<u8>, Rejection>(e),
{
    if !is_plain_path(path) {
        return Err(Rejection::NotFound);
    }
    match authorization {
        None => Err(Rejection::Unauthorized),
        Some(value) => match basic_credential(value) {
            None => Err(Rejection::BadRequest),
            Some(c) => Ok(c),
        },
    }
}

} // verus!
