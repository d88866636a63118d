//! The switches that steer how temporal values are formatted.

use vstd::prelude::*;

verus! {

/// A set of formatting switches, one bit each.
pub type Opt = u16;

/// Treat a datetime without a timezone as UTC.
pub const NAIVE_UTC: Opt = 2;

/// Leave the microseconds out.
pub const OMIT_MICROSECONDS: Opt = 8;

/// Write a zero offset as `Z` in place of `+00:00`.
pub const UTC_Z: Opt = 512;

/// True when `opts` has the switch `flag` on.
pub open spec fn enabled(opts: Opt, flag: Opt) -> bool {
    opts & flag == flag
}

/// Tells whether `opts` has the switch `flag` on.
pub fn is_set(opts: Opt, flag: Opt) -> (on: bool)
    ensures
        on == enabled(opts, flag),
{
    opts & flag == flag
}

/// The three switches are independent: turning one on leaves the other two
/// as they were, and a set without any bit has none of them on.
pub proof fn lemma_switches_independent(opts: Opt)
    ensures
        !enabled(0, NAIVE_UTC) && !enabled(0, OMIT_MICROSECONDS) && !enabled(0, UTC_Z),
        enabled(opts | NAIVE_UTC, NAIVE_UTC),
        enabled(opts | NAIVE_UTC, OMIT_MICROSECONDS) == enabled(opts, OMIT_MICROSECONDS),
        enabled(opts | NAIVE_UTC, UTC_Z) == enabled(opts, UTC_Z),
        enabled(opts | OMIT_MICROSECONDS, OMIT_MICROSECONDS),
        enabled(opts | OMIT_MICROSECONDS, NAIVE_UTC) == enabled(opts, NAIVE_UTC),
        enabled(opts | OMIT_MICROSECONDS, UTC_Z) == enabled(opts, UTC_Z),
        enabled(opts | UTC_Z, UTC_Z),
        enabled(opts | UTC_Z, NAIVE_UTC) == enabled(opts, NAIVE_UTC),
        enabled(opts | UTC_Z, OMIT_MICROSECONDS) == enabled(opts, OMIT_MICROSECONDS),
{
    assert(0u16 & 2 != 2 && 0u16 & 8 != 8 && 0u16 & 512 != 512) by (bit_vector);
    assert((opts | 2) & 2 == 2 && (opts | 8) & 8 == 8 && (opts | 512) & 512 == 512)
        by (bit_vector);
    assert(((opts | 2) & 8 == 8) == (opts & 8 == 8) && ((opts | 2) & 512 == 512) == (opts & 512
        == 512)) by (bit_vector);
    assert(((opts | 8) & 2 == 2) == (opts & 2 == 2) && ((opts | 8) & 512 == 512) == (opts & 512
        == 512)) by (bit_vector);
    assert(((opts | 512) & 2 == 2) == (opts & 2 == 2) && ((opts | 512) & 8 == 8) == (opts & 8
        == 8)) by (bit_vector);
}

} // verus!
