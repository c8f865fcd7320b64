//! The clock module's integer params: the time signature, which must count
//! at least one beat of at least one beat value.

use vstd::prelude::*;

verus! {

/// The default numerator and denominator of the time signature.
pub fn default_four() -> (r: u32)
    ensures
        r == 4,
{
    4
}

/// A time signature part read from the params: accepted when at least 1.
pub fn positive_u32(v: u32) -> (r: Result<u32, String>)
    ensures
        v >= 1 ==> r == Ok::<u32, String>(v),
        v == 0 ==> (r matches Err(e) && e@ == "must be a positive integer (>= 1)"@),
{
    if v == 0 {
        return Err(String::from_str("must be a positive integer (>= 1)"));
    }
    Ok(v)
}

} // verus!
