use vstd::prelude::*;
use crate::error::AppError;
use vstd::string::StringSliceAdditionalSpecFns;

verus! {

/// An ASCII decimal digit.
pub open spec fn is_digit_byte(b: u8) -> bool {
    48 <= b <= 57
}

/// An ASCII hexadecimal digit, either case.
pub open spec fn is_hex_byte(b: u8) -> bool {
    (48 <= b <= 57) || (65 <= b <= 70) || (97 <= b <= 102)
}

/// Every byte is a decimal digit.
pub open spec fn all_digits(s: Seq<u8>) -> bool {
    forall|i: int| 0 <= i < s.len() ==> is_digit_byte(#[trigger] s[i])
}

/// The value of a string of decimal digits.
pub open spec fn digits_value(s: Seq<u8>) -> nat
    decreases s.len(),
{
    if s.len() == 0 {
        0
    } else {
        digits_value(s.drop_last()) * 10 + (s.last() - 48) as nat
    }
}

/// The digits of a decimal literal: one optional leading `+` is dropped.
pub open spec fn unsigned_digits(s: Seq<u8>) -> Seq<u8> {
    if s.len() > 0 && s[0] == 43 {
        s.drop_first()
    } else {
        s
    }
}

/// The `u32` a decimal literal denotes: an optional `+` and at least one digit,
/// nothing else, with a value that fits.
pub open spec fn parse_u32_spec(s: Seq<u8>) -> Option<u32> {
    let d = unsigned_digits(s);
    if d.len() > 0 && all_digits(d) && digits_value(d) <= u32::MAX {
        Some(digits_value(d) as u32)
    } else {
        None
    }
}

/// Exactly 64 hexadecimal digits.
pub open spec fn is_hex64(s: Seq<u8>) -> bool {
    s.len() == 64 && forall|i: int| 0 <= i < s.len() ==> is_hex_byte(#[trigger] s[i])
}

proof fn lemma_prefix_value_le(s: Seq<u8>, j: int)
    requires
        0 <= j <= s.len(),
        all_digits(s),
    ensures
        digits_value(s.subrange(0, j)) <= digits_value(s),
    decreases s.len(),
{
    if j == s.len() {
        assert(s.subrange(0, j) =~= s);
    } else {
        let t = s.drop_last();
        assert(all_digits(t)) by {
            assert forall|i: int| 0 <= i < t.len() implies is_digit_byte(#[trigger] t[i]) by {
                assert(t[i] == s[i]);
            }
        }
        lemma_prefix_value_le(t, j);
        assert(t.subrange(0, j) =~= s.subrange(0, j));
    }
}

/// Reads a decimal height: `Some` exactly when the text is a `u32` literal.
pub fn parse_height(text: &str) -> (r: Option<u32>)
    ensures
        r == parse_u32_spec(text.spec_bytes()),
{
    let bytes = text.as_bytes();
    let n = bytes.len();
    let mut i: usize = 0;
    if n > 0 && bytes[0] == 43u8 {
        i = 1;
    }
    let ghost d = unsigned_digits(bytes@);
    assert(d =~= bytes@.subrange(i as int, n as int));
    if i >= n {
        return None;
    }
    let start = i;
    let mut acc: u64 = 0;
    while i < n
        invariant
            start <= i <= n,
            n == bytes@.len(),
            bytes@ == text.spec_bytes(),
            d == unsigned_digits(text.spec_bytes()),
            d =~= bytes@.subrange(start as int, n as int),
            all_digits(d.subrange(0, i - start)),
            acc == digits_value(d.subrange(0, i - start)),
            acc <= u32::MAX,
        decreases n - i,
    {
        let b = bytes[i];
        if b < 48u8 || b > 57u8 {
            assert(!is_digit_byte(d[i - start]));
            assert(!all_digits(d));
            return None;
        }
        let ghost p = d.subrange(0, i - start + 1);
        assert(p.drop_last() =~= d.subrange(0, i - start));
        assert(all_digits(p)) by {
            assert forall|k: int| 0 <= k < p.len() implies is_digit_byte(#[trigger] p[k]) by {
                if k < p.len() - 1 {
                    assert(p[k] == d.subrange(0, i - start)[k]);
                }
            }
        }
        let next: u64 = acc * 10 + (b - 48u8) as u64;
        i = i + 1;
        if next > 4294967295u64 {
            proof {
                if all_digits(d) {
                    lemma_prefix_value_le(d, i - start);
                }
            }
            return None;
        }
        acc = next;
    }
    assert(d.subrange(0, i - start) =~= d);
    Some(acc as u32)
}

/// Whether the text is exactly 64 hexadecimal digits.
pub fn is_hex_id(text: &str) -> (r: bool)
    ensures
        r == is_hex64(text.spec_bytes()),
{
    let bytes = text.as_bytes();
    if bytes.len() != 64 {
        return false;
    }
    let mut i: usize = 0;
    while i < bytes.len()
        invariant
            bytes@ == text.spec_bytes(),
            i <= bytes@.len(),
            forall|k: int| 0 <= k < i ==> is_hex_byte(#[trigger] bytes@[k]),
        decreases bytes@.len() - i,
    {
        let b = bytes[i];
        if !((48u8 <= b && b <= 57u8) || (65u8 <= b && b <= 70u8) || (97u8 <= b && b <= 102u8)) {
            assert(!is_hex_byte(bytes@[i as int]));
            return false;
        }
        i = i + 1;
    }
    true
}

/// What a caller-supplied block identifier denotes.
#[derive(Debug, Clone)]
pub enum BlockIdentifier {
    Height(u32),
    Hash(String),
    Invalid(String),
}

/// The classification of `text`: a height when it reads as a `u32`, else a hash
/// when it is 64 hexadecimal digits, else invalid.
pub open spec fn classified_as(text: Seq<char>, bytes: Seq<u8>, r: BlockIdentifier) -> bool {
    match parse_u32_spec(bytes) {
        Some(h) => r == BlockIdentifier::Height(h),
        None => if is_hex64(bytes) {
            r is Hash && r->Hash_0@ == text
        } else {
            r is Invalid && r->Invalid_0@ == text
        },
    }
}

/// Classifies a block identifier as a height, a hash, or invalid.
pub fn classify_identifier(text: &str) -> (r: BlockIdentifier)
    ensures
        classified_as(text@, text.spec_bytes(), r),
{
    match parse_height(text) {
        Some(h) => BlockIdentifier::Height(h),
        None => if is_hex_id(text) {
            BlockIdentifier::Hash(text.to_owned())
        } else {
            BlockIdentifier::Invalid(text.to_owned())
        },
    }
}

/// Accepts a transaction id of 64 hexadecimal digits, and rejects any other
/// text with `InvalidTransactionId` carrying it.
pub fn validate_txid(text: &str) -> (r: Result<(), AppError>)
    ensures
        r is Ok <==> is_hex64(text.spec_bytes()),
        r is Err ==> r->Err_0 is InvalidTransactionId && r->Err_0->InvalidTransactionId_0@ == text@,
{
    if is_hex_id(text) {
        Ok(())
    } else {
        Err(AppError::InvalidTransactionId(text.to_owned()))
    }
}

/// Accepts a header hash of 64 hexadecimal digits, and rejects any other text
/// with `InvalidHeaderHash` carrying it.
pub fn validate_header_hash(text: &str) -> (r: Result<(), AppError>)
    ensures
        r is Ok <==> is_hex64(text.spec_bytes()),
        r is Err ==> r->Err_0 is InvalidHeaderHash && r->Err_0->InvalidHeaderHash_0@ == text@,
{
    if is_hex_id(text) {
        Ok(())
    } else {
        Err(AppError::InvalidHeaderHash(text.to_owned()))
    }
}

} // verus!
