//! Telling whether two files hold the same bytes.
//!
//! Contents are compared by their BLAKE3 digests, computed by the `blake3`
//! crate. The digest is not restated here: it has a name, `blake3_hex`.

use vstd::prelude::*;

verus! {

/// The BLAKE3 digest of `data`, in lowercase hexadecimal.
pub uninterp spec fn blake3_hex(data: Seq<u8>) -> Seq<char>;

/// `blake3::Hasher::new`, `update`, `finalize` and `Hash::to_hex`: the
/// digest of `data`, in lowercase hexadecimal.
#[verifier::external_body]
fn hex_digest(data: &[u8]) -> (hex: String)
    ensures
        hex@ == blake3_hex(data@),
{
    let mut hasher = blake3::Hasher::new();
    hasher.update(data);
    hasher.finalize().to_hex().to_string()
}

/// The BLAKE3 digest of `data`, in lowercase hexadecimal.
pub fn compute_blake3_hex(data: &[u8]) -> (hex: String)
    ensures
        hex@ == blake3_hex(data@),
{
    hex_digest(data)
}

/// Whether two digests stand for the same content. A digest that could not
/// be computed matches nothing.
pub fn digests_match(source: Option<String>, target: Option<String>) -> (same: bool)
    ensures
        same == (source is Some && target is Some && source->0@ == target->0@),
{
    match (source, target) {
        (Some(first), Some(second)) => first == second,
        _ => false,
    }
}

} // verus!
