//! The deposit that keeps a record's storage funded.

use crate::layout::MAX_RECORD_SPACE;
use vstd::prelude::*;

verus! {

/// Lamports that keep `space` bytes of storage rent-exempt at the default
/// rent: 128 bytes of account overhead plus the data, at 3480 lamports per
/// byte-year, for two years.
pub open spec fn rent_exempt_minimum(space: nat) -> nat {
    (128 + space) * 6960
}

/// Relies on `Rent::minimum_balance` of the default `Rent`: it computes
/// `((128 + space) * 3480) as f64 * 2.0` and truncates it, which is exact
/// for sizes this small.
#[verifier::external_body]
pub(crate) fn minimum_balance(space: usize) -> (r: u64)
    requires
        space <= MAX_RECORD_SPACE,
    ensures
        r == rent_exempt_minimum(space as nat),
{
    anchor_lang::prelude::Rent::default().minimum_balance(space)
}

} // verus!
