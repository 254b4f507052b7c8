//! The content digest used identically by client and server: the SHA-1 of a
//! file's bytes, rendered in hexadecimal. Equality of the two sides' digests
//! is the sole integrity signal the protocol exposes.
use vstd::prelude::*;
use vstd::utf8::encode_utf8;

verus! {

/// The hexadecimal SHA-1 digest of a byte sequence: a function of the bytes
/// alone, computed the same way on every machine.
pub uninterp spec fn sha1_hex_of(data: Seq<u8>) -> Seq<char>;

/// Relies on `checksums::hash_reader` with `checksums::Algorithm::SHA1`: the
/// digest of an in-memory byte stream depends on the bytes alone.
#[verifier::external_body]
pub(crate) fn sha1_hex(data: &Vec<u8>) -> (r: String)
    ensures
        r@ == sha1_hex_of(data@),
{
    checksums::hash_reader(&mut data.as_slice(), checksums::Algorithm::SHA1)
}

/// The digest of `data` as it travels in an acknowledgment: the bytes of its
/// hexadecimal rendering.
pub fn digest_bytes(data: &Vec<u8>) -> (r: Vec<u8>)
    ensures
        r@ == encode_utf8(sha1_hex_of(data@)),
{
    let hex = sha1_hex(data);
    vstd::string::StrSliceExecFns::as_bytes_vec(hex.as_str())
}

/// The digest of `data` as the operator reads it: its hexadecimal rendering.
pub fn digest_hex(data: &Vec<u8>) -> (r: String)
    ensures
        r@ == sha1_hex_of(data@),
{
    sha1_hex(data)
}

/// Whether two byte strings are equal, element for element.
pub fn bytes_equal(a: &[u8], b: &[u8]) -> (r: bool)
    ensures
        r == (a@ == b@),
{
    if a.len() != b.len() {
        return false;
    }
    let n = a.len();
    let mut i: usize = 0;
    while i < n
        invariant
            n == a@.len() == b@.len(),
            i <= n,
            forall|j: int| 0 <= j < i ==> a@[j] == b@[j],
        decreases n - i,
    {
        if a[i] != b[i] {
            return false;
        }
        i = i + 1;
    }
    proof {
        assert(a@ =~= b@);
    }
    true
}

} // verus!
