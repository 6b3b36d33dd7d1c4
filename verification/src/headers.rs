//! HTTP request headers, as the `http` crate holds them.

use axum::http::{HeaderMap, HeaderValue};
use vstd::prelude::*;

verus! {

/// The header map of the `http` crate.
#[verifier::external_type_specification]
#[verifier::external_body]
#[verifier::reject_recursive_types(T)]
pub struct ExHeaderMap<T>(HeaderMap<T>);

/// A header value of the `http` crate.
#[verifier::external_type_specification]
#[verifier::external_body]
pub struct ExHeaderValue(HeaderValue);

/// What a header map holds: the values of each header as bytes, in the order in which they were
/// appended, under the header's name in lower case.
pub uninterp spec fn header_contents(map: HeaderMap) -> Map<Seq<char>, Seq<Seq<u8>>>;

/// `name` with its ASCII letters in lower case.
pub open spec fn lower_case(name: Seq<char>) -> Seq<char> {
    name.map_values(
        |c: char|
            if 'A' <= c <= 'Z' {
                (c as int + 32) as char
            } else {
                c
            },
    )
}

/// The values that stand under a header name, whose letter case does not matter.
pub open spec fn values_under(contents: Map<Seq<char>, Seq<Seq<u8>>>, name: Seq<char>) -> Seq<
    Seq<u8>,
> {
    if contents.contains_key(lower_case(name)) {
        contents[lower_case(name)]
    } else {
        Seq::empty()
    }
}

/// The values of the header `name` of a map.
pub open spec fn header_values(map: HeaderMap, name: Seq<char>) -> Seq<Seq<u8>> {
    values_under(header_contents(map), name)
}

/// The bytes that a list of byte vectors holds.
pub open spec fn bytes_of(values: Seq<Vec<u8>>) -> Seq<Seq<u8>> {
    values.map_values(|value: Vec<u8>| value@)
}

/// Calls `HeaderMap::get_all` and copies the bytes of each value that it iterates over: all the
/// values of the header, first appended first. There are none where `name` is absent or is no
/// header name.
#[verifier::external_body]
pub(crate) fn get_all(map: &HeaderMap, name: &str) -> (values: Vec<Vec<u8>>)
    ensures
        bytes_of(values@) == values_under(header_contents(*map), name@),
{
    map.get_all(name).iter().map(|value| value.as_bytes().to_vec()).collect()
}

/// Calls `HeaderMap::get` and copies the bytes of the value: the first value of the header, or
/// `None` where it has none.
#[verifier::external_body]
pub(crate) fn get(map: &HeaderMap, name: &str) -> (value: Option<Vec<u8>>)
    ensures
        match value {
            Some(bytes) => {
                &&& values_under(header_contents(*map), name@).len() > 0
                &&& bytes@ == values_under(header_contents(*map), name@)[0]
            },
            None => values_under(header_contents(*map), name@).len() == 0,
        },
{
    map.get(name).map(|value| value.as_bytes().to_vec())
}

} // verus!
