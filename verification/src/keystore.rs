//! Validation of the database keys that clients supply at runtime. Keys live in memory
//! only.

use vstd::prelude::*;

verus! {

/// Why a key was refused.
#[derive(Debug, Clone, Copy, PartialEq, Eq, Structural)]
pub enum KeyError {
    /// Not exactly sixteen bytes; how many there are.
    Length(usize),
    /// A byte outside printable ASCII.
    NotPrintable,
}

/// Printable ASCII.
pub open spec fn printable(b: u8) -> bool {
    32 <= b <= 126
}

/// Exactly sixteen bytes of printable ASCII.
pub open spec fn is_valid_key(key: Seq<u8>) -> bool {
    key.len() == 16 && forall|i: int| 0 <= i < key.len() ==> printable(#[trigger] key[i])
}

/// Validate a client-supplied key: exactly 16 printable-ASCII bytes.
pub fn validate_key(key: &str) -> (r: Result<(), KeyError>)
    ensures
        r is Ok == is_valid_key(vstd::utf8::encode_utf8(key@)),
        r is Err ==> r->Err_0 == if vstd::utf8::encode_utf8(key@).len() != 16 {
            KeyError::Length(vstd::utf8::encode_utf8(key@).len() as usize)
        } else {
            KeyError::NotPrintable
        },
{
    let b = key.as_bytes();
    if b.len() != 16 {
        return Err(KeyError::Length(b.len()));
    }
    let mut i: usize = 0;
    while i < b.len()
        invariant
            i <= b.len(),
            b.len() == 16,
            b@ == vstd::utf8::encode_utf8(key@),
            forall|j: int| 0 <= j < i ==> printable(#[trigger] b@[j]),
        decreases b.len() - i,
    {
        if b[i] < 32 || b[i] > 126 {
            assert(!printable(b@[i as int]));
            return Err(KeyError::NotPrintable);
        }
        i += 1;
    }
    Ok(())
}

/// A key is valid exactly where it has sixteen bytes, each of printable ASCII: from the
/// blank to the tilde.
pub proof fn law_valid_keys(key: Seq<u8>)
    ensures
        is_valid_key(key) <==> key.len() == 16 && forall|i: int|
            0 <= i < 16 ==> 0x20 <= #[trigger] key[i] <= 0x7e,
{
}

} // verus!
