//! Human-readable sizes ("1KiB", "4 k", "0GiB"), as configuration takes them.

use byte_unit::Byte;
use vstd::prelude::*;

use crate::task::Error;

verus! {

/// The number of bytes a size string denotes under byte_unit's grammar, or
/// `None` where the string is not a size.
pub uninterp spec fn denoted_bytes(s: Seq<char>) -> Option<u128>;

/// Relies on `byte_unit::Byte::from_str` and `Byte::get_bytes` (byte-unit 4,
/// 128-bit sizes): a parse that depends on the text alone.
#[verifier::external_body]
fn byte_count(s: &str) -> (r: Option<u128>)
    ensures
        r == denoted_bytes(s@),
{
    match Byte::from_str(s) {
        Ok(b) => Some(b.get_bytes()),
        Err(_) => None,
    }
}

/// The size a string denotes, in bytes; `InvalidSize` where the string is
/// no size or the size does not fit a `usize`.
pub fn parse_size(s: &str) -> (r: Result<usize, Error>)
    ensures
        r == match denoted_bytes(s@) {
            Some(n) => if n <= usize::MAX {
                Ok::<usize, Error>(n as usize)
            } else {
                Err(Error::InvalidSize)
            },
            None => Err(Error::InvalidSize),
        },
{
    match byte_count(s) {
        Some(n) => if n <= usize::MAX as u128 {
            Ok(n as usize)
        } else {
            Err(Error::InvalidSize)
        },
        None => Err(Error::InvalidSize),
    }
}

/// The size a string denotes, in bytes; `InvalidSize` where the string is
/// no size or the size does not fit a `u64`.
pub fn parse_size_u64(s: &str) -> (r: Result<u64, Error>)
    ensures
        r == match denoted_bytes(s@) {
            Some(n) => if n <= u64::MAX {
                Ok::<u64, Error>(n as u64)
            } else {
                Err(Error::InvalidSize)
            },
            None => Err(Error::InvalidSize),
        },
{
    match byte_count(s) {
        Some(n) => if n <= u64::MAX as u128 {
            Ok(n as u64)
        } else {
            Err(Error::InvalidSize)
        },
        None => Err(Error::InvalidSize),
    }
}

} // verus!
