//! Digests and encodings that other crates compute.

use vstd::prelude::*;
use base64::Engine;

verus! {

/// The MD5 digest of `data`, written in hexadecimal.
pub uninterp spec fn md5_hex(data: Seq<u8>) -> Seq<char>;

/// Whether `c` is a hexadecimal digit in lower case.
pub open spec fn lower_hex_digit(c: char) -> bool {
    ('0' <= c && c <= '9') || ('a' <= c && c <= 'f')
}

/// Whether `s` has the form of a digest: 32 hexadecimal digits in lower
/// case.
pub open spec fn digest_form(s: Seq<char>) -> bool {
    s.len() == 32 && forall|i: int| 0 <= i < s.len() ==> lower_hex_digit(#[trigger] s[i])
}

/// The MD5 digest of `data` in lower-case hexadecimal, by `md5::compute` and
/// the `LowerHex` form of its `Digest`. The contract names the result, since
/// the digest is a function of the bytes alone, and states its form: the
/// digest has 16 bytes, and each is written as two digits.
#[verifier::external_body]
pub(crate) fn md5_hex_of(data: &[u8]) -> (out: String)
    ensures
        out@ == md5_hex(data@),
        digest_form(out@),
{
    format!("{:x}", md5::compute(data))
}

/// The Base64 encoding of `data` with the standard alphabet and padding.
pub uninterp spec fn base64_standard(data: Seq<u8>) -> Seq<char>;

/// Whether the Base64 encoding of `len` bytes has a length that a string
/// can have on this machine: four characters for every three bytes, and
/// four for a rest.
pub open spec fn base64_fits(len: nat) -> bool {
    len / 3 * 4 + 4 <= isize::MAX
}

/// The Base64 encoding of `data`, by `Engine::encode` of
/// `base64::engine::general_purpose::STANDARD`. That function panics where
/// the length of the encoding overflows or is more than a buffer can hold,
/// which the precondition rules out. The contract only names the result.
#[verifier::external_body]
pub(crate) fn base64_standard_of(data: &[u8]) -> (out: String)
    requires
        base64_fits(data@.len()),
    ensures
        out@ == base64_standard(data@),
{
    base64::engine::general_purpose::STANDARD.encode(data)
}

} // verus!
