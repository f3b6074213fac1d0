//! How much of a reply is read.

use vstd::prelude::*;

use crate::text;
use crate::text::decimal_text;

verus! {

/// Whether the next part of a reply may be read: with it, no more than
/// `limit` bytes have been. A broken server cannot make the program
/// allocate without bound.
pub fn check_part(have: usize, available: u32, limit: usize) -> (r: Result<(), String>)
    ensures
        have + available <= limit ==> r is Ok,
        have + available > limit ==> (r matches Err(reason) && reason@ == "the reply is larger than the "@
            + text::decimal(limit as nat) + " byte limit"@),
{
    let total: u128 = have as u128 + available as u128;
    if total > limit as u128 {
        Err(
            "the reply is larger than the ".to_owned().concat(decimal_text(limit as u64).as_str()).concat(
                " byte limit",
            ),
        )
    } else {
        Ok(())
    }
}

} // verus!
