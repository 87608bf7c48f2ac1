//! Content hashes (SHA-256, lowercase hex), as recorded in approvals and in
//! the metadata of managed blocks.
use vstd::prelude::*;
use vstd::string::StringSliceAdditionalSpecFns;

verus! {

/// The SHA-256 digest of `bytes` as 64 lowercase hex digits.
pub uninterp spec fn sha256_hex(bytes: Seq<u8>) -> Seq<char>;

pub open spec fn is_lower_hex(c: char) -> bool {
    ('0' <= c && c <= '9') || ('a' <= c && c <= 'f')
}

/// `sha2::Sha256::digest(bytes)` written with `{:x}`. The digest itself is
/// named, not stated; the text is 64 lowercase hex digits (32 bytes, two
/// digits each, as generic-array's `LowerHex` writes them).
#[verifier::external_body]
pub(crate) fn sha256_hex_of(bytes: &[u8]) -> (r: String)
    ensures
        r@ == sha256_hex(bytes@),
        r@.len() == 64,
        forall|i: int| 0 <= i < 64 ==> is_lower_hex(#[trigger] r@[i]),
{
    format!("{:x}", <sha2::Sha256 as sha2::Digest>::digest(bytes))
}

/// The digest of a string's UTF-8 bytes.
pub fn hash_str(value: &str) -> (r: String)
    ensures
        r@ == sha256_hex(value.spec_bytes()),
        r@.len() == 64,
{
    sha256_hex_of(value.as_bytes())
}

} // verus!
