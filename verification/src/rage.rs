//! The sealed-file adapter's checkable part. Encryption and decryption are
//! done by an external recipient-based file encryption tool, which only the
//! surrounding program may run; the library can still tell whether a byte
//! string even looks like such a sealed file before anything is attempted.

use vstd::prelude::*;

verus! {

#[derive(Clone, Debug, PartialEq, Eq)]
pub enum RageError {
    /// Reading or writing around the sealing tool failed.
    Io(String),
    /// The sealing tool itself refused; its words are kept.
    RageFailed(String),
}

/// The magic prefix of a sealed file: the ASCII bytes of
/// `age-encryption.org/`.
pub open spec fn spec_age_magic() -> Seq<u8> {
    seq![
        97u8, 103u8, 101u8, 45u8, 101u8, 110u8, 99u8, 114u8, 121u8, 112u8, 116u8, 105u8, 111u8,
        110u8, 46u8, 111u8, 114u8, 103u8, 47u8,
    ]
}

/// Cheap magic-prefix check: whether the bytes begin like a sealed file.
/// Used to refuse obviously-wrong files before any decrypt attempt.
pub fn looks_like_age_file(enc: &[u8]) -> (r: bool)
    ensures
        r == (enc@.len() >= 19 && enc@.subrange(0, 19) == spec_age_magic()),
{
    if enc.len() < 19 {
        return false;
    }
    let magic: Vec<u8> = vec![
        97u8, 103u8, 101u8, 45u8, 101u8, 110u8, 99u8, 114u8, 121u8, 112u8, 116u8, 105u8, 111u8,
        110u8, 46u8, 111u8, 114u8, 103u8, 47u8,
    ];
    proof {
        assert(magic@ =~= spec_age_magic());
    }
    let head = vstd::slice::slice_subrange(enc, 0, 19);
    crate::wire::bytes_eq(head, magic.as_slice())
}

} // verus!
