//! The calls this library makes into outside crates, each behind a contract
//! that states what the crate's source shows of it.

use vstd::prelude::*;
use vstd::string::*;

verus! {

/// A fresh random version-4 UUID from `uuid::Uuid::new_v4`, as its 128-bit
/// value. The crate masks a random number so that the version field (bits 76
/// to 79) reads 4 and the variant field (bits 62 and 63) reads `0b10`; that is
/// all this contract claims. The rest is random, and the call panics where the
/// operating system gives no random bytes, which no `requires` can rule out.
#[verifier::external_body]
pub(crate) fn new_v4_uuid() -> (res: u128)
    ensures
        (res >> 76u128) & 0xfu128 == 4u128,
        (res >> 62u128) & 0x3u128 == 2u128,
{
    uuid::Uuid::new_v4().as_u128()
}

#[verifier::external_type_specification]
#[verifier::external_body]
pub struct ExHeaderValue(http::HeaderValue);

#[verifier::external_type_specification]
#[verifier::external_body]
pub struct ExInvalidHeaderValue(http::header::InvalidHeaderValue);

/// A byte that `http::HeaderValue` accepts: a tab, or any byte from 32 up
/// other than 127 (DEL).
pub open spec fn valid_header_byte(b: u8) -> bool {
    (b >= 32 && b != 127) || b == 9
}

/// What an `http::HeaderValue` holds: its bytes, as `as_bytes` gives them.
/// A header value is a container of bytes; this names its contents.
pub uninterp spec fn header_value_bytes(v: http::HeaderValue) -> Seq<u8>;

/// Whether an `http::HeaderValue` is marked sensitive, as `is_sensitive`
/// gives it.
pub uninterp spec fn header_value_sensitive(v: http::HeaderValue) -> bool;

/// `http::HeaderValue::from_str`: the value is accepted exactly when every
/// byte of the string's UTF-8 encoding is a valid header byte (the crate's
/// `is_valid` checks each byte). An accepted value holds the string's bytes
/// unchanged and is not marked sensitive (`try_from_generic` copies the bytes
/// and sets `is_sensitive: false`).
#[verifier::external_body]
pub(crate) fn header_value_from_str(s: &str) -> (res: Result<
    http::HeaderValue,
    http::header::InvalidHeaderValue,
>)
    ensures
        res is Ok <==> forall|i: int|
            0 <= i < s.spec_bytes().len() ==> valid_header_byte(#[trigger] s.spec_bytes()[i]),
        res matches Ok(v) ==> header_value_bytes(v) == s.spec_bytes() && !header_value_sensitive(
            v,
        ),
{
    http::HeaderValue::from_str(s)
}

/// `http::HeaderValue::set_sensitive(true)`: marks the value as sensitive so
/// that it is not shown in debug output; the setter only sets that flag, so
/// the bytes stay as they were.
#[verifier::external_body]
pub(crate) fn mark_sensitive(value: &mut http::HeaderValue)
    ensures
        header_value_bytes(*final(value)) == header_value_bytes(*old(value)),
        header_value_sensitive(*final(value)),
{
    value.set_sensitive(true)
}

} // verus!
