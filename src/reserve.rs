use vstd::prelude::*;

verus! {

/// Bytes that every buffer is charged for besides its contents.
pub const ACCOUNT_STORAGE_OVERHEAD: u64 = 128;

/// The host's fee schedule: a price per byte and year, and the number of
/// years of fees a buffer must hold to be exempt from collection.
#[derive(Debug, Clone, Copy, PartialEq, Eq, Structural)]
pub struct FeeSchedule {
    pub lamports_per_byte_year: u64,
    pub exemption_years: u64,
}

/// The minimum funding of a buffer of `size` bytes, saturated at `u64::MAX`.
pub open spec fn min_reserve_spec(f: FeeSchedule, size: int) -> int {
    let raw = (ACCOUNT_STORAGE_OVERHEAD + size) * f.lamports_per_byte_year * f.exemption_years;
    if raw > u64::MAX {
        u64::MAX as int
    } else {
        raw
    }
}

/// What must be transferred for a buffer holding `funding` to reach `required`.
pub open spec fn shortfall_spec(required: int, funding: int) -> int {
    if required > funding {
        required - funding
    } else {
        0
    }
}

impl FeeSchedule {
    /// The minimum funding of a buffer of `size` bytes.
    pub fn min_reserve(&self, size: u64) -> (r: u64)
        ensures
            r == min_reserve_spec(*self, size as int),
    {
        let ghost a = ACCOUNT_STORAGE_OVERHEAD + size;
        let ghost b = self.lamports_per_byte_year as int;
        let ghost c = self.exemption_years as int;
        if self.lamports_per_byte_year == 0 || self.exemption_years == 0 {
            assert(a * b * c == 0) by (nonlinear_arith)
                requires b == 0 || c == 0;
            return 0;
        }
        let total = match size.checked_add(ACCOUNT_STORAGE_OVERHEAD) {
            Some(t) => t,
            None => {
                assert(a * b * c >= a) by (nonlinear_arith)
                    requires a > 0, b >= 1, c >= 1;
                return u64::MAX;
            },
        };
        let per_year = match total.checked_mul(self.lamports_per_byte_year) {
            Some(p) => p,
            None => {
                assert(a * b * c >= a * b) by (nonlinear_arith)
                    requires a > 0, b >= 1, c >= 1;
                return u64::MAX;
            },
        };
        match per_year.checked_mul(self.exemption_years) {
            Some(r) => r,
            None => u64::MAX,
        }
    }

    /// The top-up that brings `funding` to the reserve of a buffer of `size` bytes.
    pub fn shortfall(&self, size: u64, funding: u64) -> (r: u64)
        ensures
            r == shortfall_spec(min_reserve_spec(*self, size as int), funding as int),
    {
        self.min_reserve(size).saturating_sub(funding)
    }
}

/// The reserve never decreases as the size grows.
pub proof fn lemma_min_reserve_monotonic(f: FeeSchedule, s1: int, s2: int)
    requires
        0 <= s1 <= s2,
    ensures
        min_reserve_spec(f, s1) <= min_reserve_spec(f, s2),
{
    let b = f.lamports_per_byte_year as int;
    let c = f.exemption_years as int;
    let a1 = ACCOUNT_STORAGE_OVERHEAD + s1;
    let a2 = ACCOUNT_STORAGE_OVERHEAD + s2;
    assert(a1 * b * c <= a2 * b * c) by (nonlinear_arith)
        requires 0 <= a1 <= a2, b >= 0, c >= 0;
}

} // verus!
