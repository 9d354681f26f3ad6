//! SHA-256 digests as text.

use vstd::prelude::*;

use crate::boundary::sha256;
use crate::boundary::sha256_of;
use crate::text::hex;
use crate::text::hex_text;

verus! {

/// The text of a SHA-256 digest.
pub open spec fn digest_text(data: Seq<u8>) -> Seq<char> {
    hex_text(sha256_of(data))
}

/// The SHA-256 digest of bytes, as text.
pub fn sha256_hex(value: &[u8]) -> (result: String)
    ensures
        result@ == digest_text(value@),
{
    let digest = sha256(value);
    hex(digest.as_slice())
}

} // verus!
