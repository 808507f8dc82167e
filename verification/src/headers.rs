//! The boundary to the `http` crate: declarations of its header types and
//! the trusted wrappers around the calls the library makes.

use vstd::prelude::*;

verus! {

#[verifier::external_type_specification]
#[verifier::external_body]
pub struct ExHeaderValue(http::HeaderValue);

#[verifier::external_type_specification]
#[verifier::external_body]
#[verifier::reject_recursive_types(T)]
pub struct ExHeaderMap<T>(http::HeaderMap<T>);

/// The bytes that a header value holds.
pub uninterp spec fn header_value_bytes(v: http::HeaderValue) -> Seq<u8>;

/// The `Accept-Encoding` values that a header map holds, in insertion
/// order, each as its bytes.
pub uninterp spec fn accept_encoding_values(h: http::HeaderMap) -> Seq<Seq<u8>>;

/// Relies on `http::HeaderMap::get_all` and `http::HeaderValue::as_bytes`:
/// `get_all(ACCEPT_ENCODING)` iterates the values of the `Accept-Encoding`
/// field in insertion order, and `as_bytes` is the bytes one value holds.
#[verifier::external_body]
pub(crate) fn accept_encoding_bytes(headers: &http::HeaderMap) -> (r: Vec<Vec<u8>>)
    ensures
        r.deep_view() == accept_encoding_values(*headers),
{
    headers
        .get_all(http::header::ACCEPT_ENCODING)
        .iter()
        .map(|value| value.as_bytes().to_vec())
        .collect()
}

/// Relies on `http::HeaderValue::from_static`: it returns a value holding
/// exactly the bytes of the given string, and panics only on bytes outside
/// visible ASCII, which the precondition rules out.
#[verifier::external_body]
pub(crate) fn header_value_from_static(s: &'static str) -> (r: http::HeaderValue)
    requires
        forall|i: int| 0 <= i < s@.len() ==> 32 <= (#[trigger] s@[i] as int) && (s@[i] as int) < 127,
    ensures
        header_value_bytes(r).len() == s@.len(),
        forall|i: int| 0 <= i < s@.len() ==> #[trigger] header_value_bytes(r)[i] == s@[i] as u8,
{
    http::HeaderValue::from_static(s)
}

} // verus!
