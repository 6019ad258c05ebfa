//! Textual identity identifiers.
//!
//! The transport substrate derives a stable identifier from a principal's
//! public key; on the wire it travels as the ASCII text `P` followed by
//! lowercase hexadecimal digits. Parsing a requester's identifier is the
//! one place the authority can reject malformed input, so the shape is
//! pinned down exactly here.

use vstd::prelude::*;
use vstd::string::StringSliceAdditionalSpecFns;

verus! {

/// Identifiers are short: the bound keeps every identifier encodable
/// inside a length-framed byte chunk.
pub const MAX_IDENTIFIER_LEN: usize = 65535;

/// ASCII `P`, the identifier prefix.
pub const IDENT_PREFIX: u8 = 80;

/// ASCII `0`.
pub const DIGIT_ZERO: u8 = 48;

/// ASCII `9`.
pub const DIGIT_NINE: u8 = 57;

/// ASCII `a`.
pub const HEX_A: u8 = 97;

/// ASCII `f`.
pub const HEX_F: u8 = 102;

/// A lowercase hexadecimal digit.
pub open spec fn is_hex_digit(b: u8) -> bool {
    (DIGIT_ZERO <= b && b <= DIGIT_NINE) || (HEX_A <= b && b <= HEX_F)
}

/// A well-formed identifier: `P` followed by at least one lowercase
/// hexadecimal digit, no longer than `MAX_IDENTIFIER_LEN` bytes.
pub open spec fn valid_identifier(s: Seq<u8>) -> bool {
    &&& 2 <= s.len() <= MAX_IDENTIFIER_LEN
    &&& s[0] == IDENT_PREFIX
    &&& forall|i: int| 1 <= i < s.len() ==> is_hex_digit(#[trigger] s[i])
}

/// Decides whether `s` is a well-formed identifier.
pub fn check_identifier(s: &[u8]) -> (b: bool)
    ensures
        b == valid_identifier(s@),
{
    let n = s.len();
    if n < 2 || n > MAX_IDENTIFIER_LEN {
        return false;
    }
    if s[0] != IDENT_PREFIX {
        return false;
    }
    let mut i: usize = 1;
    while i < n
        invariant
            1 <= i <= n,
            n == s@.len(),
            forall|j: int| 1 <= j < i ==> is_hex_digit(#[trigger] s@[j]),
        decreases n - i,
    {
        let b = s[i];
        if !((DIGIT_ZERO <= b && b <= DIGIT_NINE) || (HEX_A <= b && b <= HEX_F)) {
            return false;
        }
        i = i + 1;
    }
    true
}

/// The UTF-8 bytes a character string travels as on the wire.
pub open spec fn str_bytes(s: Seq<char>) -> Seq<u8> {
    vstd::utf8::encode_utf8(s)
}

/// Decides whether two character strings are equal.
pub fn str_eq(a: &str, b: &str) -> (r: bool)
    ensures
        r == (a@ == b@),
{
    let r = bytes_eq(a.as_bytes(), b.as_bytes());
    proof {
        if a.spec_bytes() == b.spec_bytes() {
            vstd::utf8::encode_utf8_decode_utf8(a@);
            vstd::utf8::encode_utf8_decode_utf8(b@);
        }
    }
    r
}

/// Decides whether two byte strings are equal.
pub fn bytes_eq(a: &[u8], b: &[u8]) -> (r: bool)
    ensures
        r == (a@ == b@),
{
    if a.len() != b.len() {
        assert(a@ != b@) by {
            assert(a@.len() != b@.len());
        }
        return false;
    }
    let n = a.len();
    let mut i: usize = 0;
    while i < n
        invariant
            0 <= i <= n,
            n == a@.len() && n == b@.len(),
            forall|j: int| 0 <= j < i ==> a@[j] == b@[j],
        decreases n - i,
    {
        if a[i] != b[i] {
            return false;
        }
        i = i + 1;
    }
    assert(a@ =~= b@);
    true
}

} // verus!
