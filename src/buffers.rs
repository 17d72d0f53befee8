//! The fixed-capacity containers of heapless that the responses and
//! notifications hand out, with what the library relies on of them.
use crate::text::bytes_of;
use vstd::prelude::*;

verus! {

/// heapless's fixed-capacity vector, opaque here: what one holds is named
/// below, for the one instance the library hands out.
#[verifier::external_type_specification]
#[verifier::external_body]
#[verifier::reject_recursive_types(T)]
pub struct ExVec<T, const N: usize>(heapless::Vec<T, N>);

/// heapless's fixed-capacity string, opaque here likewise.
#[verifier::external_type_specification]
#[verifier::external_body]
pub struct ExString<const N: usize>(heapless::String<N>);

/// The bytes that a notification buffer holds, in order.
pub uninterp spec fn urc_bytes(v: heapless::Vec<u8, 2048>) -> Seq<u8>;

/// The bytes of the text that a 32-byte string holds.
pub uninterp spec fn text32_bytes(s: heapless::String<32>) -> Seq<u8>;

/// The bytes of the text that a 17-byte string holds.
pub uninterp spec fn text17_bytes(s: heapless::String<17>) -> Seq<u8>;

/// Relies on heapless's `Vec::from_slice`: it fails exactly when the slice
/// is longer than the capacity, and otherwise holds the slice's elements in
/// order.
#[verifier::external_body]
pub(crate) fn urc_buffer(s: &[u8]) -> (r: Option<heapless::Vec<u8, 2048>>)
    ensures
        r is Some <==> s@.len() <= 2048,
        r matches Some(v) ==> urc_bytes(v) == s@,
{
    heapless::Vec::from_slice(s).ok()
}

/// Relies on heapless's `String::push_str` on a new, empty string: it fails
/// exactly when the text is longer than the capacity in bytes, and
/// otherwise holds the text.
#[verifier::external_body]
pub(crate) fn text32(t: &str) -> (r: Option<heapless::String<32>>)
    ensures
        r is Some <==> bytes_of(t).len() <= 32,
        r matches Some(s) ==> text32_bytes(s) == bytes_of(t),
{
    let mut s: heapless::String<32> = heapless::String::new();
    match s.push_str(t) {
        Ok(()) => Some(s),
        Err(()) => None,
    }
}

/// Relies on heapless's `String::push_str` on a new, empty string: it fails
/// exactly when the text is longer than the capacity in bytes, and
/// otherwise holds the text.
#[verifier::external_body]
pub(crate) fn text17(t: &str) -> (r: Option<heapless::String<17>>)
    ensures
        r is Some <==> bytes_of(t).len() <= 17,
        r matches Some(s) ==> text17_bytes(s) == bytes_of(t),
{
    let mut s: heapless::String<17> = heapless::String::new();
    match s.push_str(t) {
        Ok(()) => Some(s),
        Err(()) => None,
    }
}

} // verus!
