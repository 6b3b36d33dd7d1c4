//! How much memory the parameters of a yescrypt hash ask for.

use crate::text;
use crate::text::{chars_of, find_char};
use vstd::prelude::*;
use vstd::slice::slice_subrange;
use yescrypt::Params;

verus! {

/// What yescrypt reads in the parameters of a hash: the cost `N`, the block size `r` and the
/// parallelism `p`; `None` where the parameters are malformed and nothing is computed.
pub uninterp spec fn yescrypt_params(params: Seq<char>) -> Option<(u64, u32, u32)>;

/// Calls `Params::from_str` and reads what it made by `Params::n`, `Params::r` and `Params::p`.
/// All of it depends on the text alone.
#[verifier::external_body]
fn read_params(params: &str) -> (read: Option<(u64, u32, u32)>)
    ensures
        read == yescrypt_params(params@),
{
    params.parse::<Params>().ok().map(|params| (params.n(), params.r(), params.p()))
}

/// Where the parameters of a hash in crypt format stand: between the second `$` and the next one,
/// or the end.
pub open spec fn params_of(hash: Seq<char>) -> Option<Seq<char>> {
    match text::split_once(hash, '$') {
        Some((_, after_first)) => match text::split_once(after_first, '$') {
            Some((_, after_second)) => match text::split_once(after_second, '$') {
                Some((params, _)) => Some(params),
                None => Some(after_second),
            },
            None => None,
        },
        None => None,
    }
}

/// Whether parameters choose the native mode, which reads and writes: it is the one written `j`.
pub open spec fn is_native(params: Seq<char>) -> bool {
    params.len() > 0 && params[0] == 'j'
}

/// The tables that the work takes have sizes in bytes that can be allocated: 128 `r` for each of
/// `N` blocks, as much for each of `p` lanes, and 12 KiB for each lane of the native mode.
pub open spec fn fits(n: u64, r: u32, p: u32, native: bool) -> bool {
    &&& 128 * r * n <= isize::MAX
    &&& 128 * r * p <= isize::MAX
    &&& native ==> 12_288 * p <= isize::MAX
}

/// Whether the memory that a hash asks for has a size that can be allocated.
pub open spec fn cost_bounded(hash: Seq<char>) -> bool {
    params_of(hash) matches Some(params) ==> (yescrypt_params(params) matches Some((n, r, p))
        ==> fits(n, r, p, is_native(params)))
}

/// Whether the tables for these parameters can be allocated.
pub fn memory_fits(n: u64, r: u32, p: u32, native: bool) -> (fit: bool)
    ensures
        fit == fits(n, r, p, native),
{
    let block: u128 = 128 * r as u128;
    assert(block * n <= 0x80_0000_0000 * 0x1_0000_0000_0000_0000 && block * p <= 0x80_0000_0000
        * 0x1_0000_0000) by (nonlinear_arith)
        requires
            0 <= block <= 0x80_0000_0000,
            0 <= n <= 0x1_0000_0000_0000_0000,
            0 <= p <= 0x1_0000_0000,
    ;
    let most = isize::MAX as u128;
    block * n as u128 <= most && block * p as u128 <= most && (!native || 12_288 * p as u128
        <= most)
}

/// Where the parameters of a hash stand.
fn find_params(chars: &Vec<char>) -> (range: Option<(usize, usize)>)
    ensures
        match range {
            Some((from, to)) => {
                &&& from <= to <= chars@.len()
                &&& params_of(chars@) == Some(chars@.subrange(from as int, to as int))
            },
            None => params_of(chars@) is None,
        },
{
    let len = chars.len();
    let first = match find_char(chars.as_slice(), '$') {
        Some(at) => at + 1,
        None => {
            return None;
        },
    };
    let rest = slice_subrange(chars.as_slice(), first, len);
    assert(rest@ =~= chars@.skip(first as int));
    let second = match find_char(rest, '$') {
        Some(at) => first + at + 1,
        None => {
            return None;
        },
    };
    let rest = slice_subrange(chars.as_slice(), second, len);
    assert(rest@ =~= chars@.skip(first as int).skip(second - first));
    match find_char(rest, '$') {
        Some(at) => {
            assert(rest@.take(at as int) =~= chars@.subrange(second as int, second + at));
            Some((second, second + at))
        },
        None => Some((second, len)),
    }
}

/// Whether the memory that a hash asks for has a size that can be allocated.
pub fn is_cost_bounded(hash: &str) -> (bounded: bool)
    ensures
        bounded == cost_bounded(hash@),
{
    let chars = chars_of(hash);
    let (from, to) = match find_params(&chars) {
        Some(range) => range,
        None => {
            return true;
        },
    };
    let ghost params = hash@.subrange(from as int, to as int);
    let native = from < to && chars[from] == 'j';
    assert(native == is_native(params));
    match read_params(hash.substring_char(from, to)) {
        Some((n, r, p)) => memory_fits(n, r, p, native),
        None => true,
    }
}

} // verus!
