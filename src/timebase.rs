use vstd::prelude::*;

verus! {

/// `a + b`, or `u64::MAX` when that does not fit.
pub open spec fn sat_add(a: u64, b: int) -> u64 {
    if a + b > u64::MAX {
        u64::MAX
    } else {
        (a + b) as u64
    }
}

/// The cycle count `micros` microseconds after `now`, at `cycles_per_us`
/// cycles per microsecond (saturating).
pub fn future_deadline(now: u64, micros: u64, cycles_per_us: u64) -> (r: u64)
    ensures
        r == sat_add(now, micros * cycles_per_us),
{
    assert((micros as int) * (cycles_per_us as int) <= (u64::MAX as int) * (u64::MAX as int)) by (nonlinear_arith)
        requires
            micros <= u64::MAX,
            cycles_per_us <= u64::MAX,
    ;
    let product: u128 = (micros as u128) * (cycles_per_us as u128);
    let wide: u128 = (now as u128) + product;
    if wide > u64::MAX as u128 {
        u64::MAX
    } else {
        wide as u64
    }
}

/// Cycles from `start` to `now`; zero if the counter went backwards (the
/// thread moved to a core whose counter lags).
pub fn elapsed_since(now: u64, start: u64) -> (r: u64)
    ensures
        r == if now >= start {
            (now - start) as u64
        } else {
            0
        },
{
    now.saturating_sub(start)
}

/// Cycles spent inside the guest during a run that took `elapsed` cycles,
/// given the fixed cost `overhead` of entering and leaving it.
pub fn vm_run_cycles(elapsed: u64, overhead: u64) -> (r: u64)
    ensures
        r == if elapsed >= overhead {
            (elapsed - overhead) as u64
        } else {
            0
        },
{
    elapsed.saturating_sub(overhead)
}

} // verus!
