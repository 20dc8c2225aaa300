//! The vesting calculator: a pure function mapping (schedule parameters,
//! commencement time, current time, principal amount) to the amount unlocked
//! so far. It reads nothing but its explicit arguments, so every computation
//! is deterministic and reproducible.

use vstd::prelude::*;
use vstd::arithmetic::div_mod::{
    lemma_div_is_ordered, lemma_div_pos_is_pos, lemma_multiply_divide_le, lemma_multiply_divide_lt,
};
use crate::types::{ReleaseSchedule, BIPS_PRECISION};

verus! {

/// The unlocked amount at time `current` for principal `amount` commencing at
/// `commenced`, under the schedule (`release_count`, `delay`, `initial_bips`,
/// `period`):
/// - nothing before commencement and during the cliff `delay`;
/// - the whole principal once the entire schedule has matured (this
///   full-amount shortcut keeps rounding remainders from being stranded);
/// - otherwise the initial tranche `floor(amount * initial_bips / 10000)`,
///   plus, after each further full `period`, an even share of the remainder:
///   multiplication before division spreads rounding loss across periods.
pub open spec fn unlocked_amount(
    commenced: u32,
    current: u32,
    amount: u32,
    release_count: u32,
    delay: u32,
    initial_bips: u32,
    period: u32,
) -> int {
    if commenced > current {
        0
    } else {
        let elapsed = current - commenced;
        if elapsed >= delay + period * (release_count - 1) {
            amount as int
        } else if elapsed < delay {
            0
        } else {
            let initial = (amount * initial_bips) / (BIPS_PRECISION as int);
            if elapsed - delay < period {
                initial
            } else {
                let additional_periods = (elapsed - delay) / (period as int);
                initial + ((amount - initial) * additional_periods) / (release_count - 1)
            }
        }
    }
}

/// Unlocked amount under a schedule given in its spread form. All
/// intermediate arithmetic is 64-bit so that `amount * initial_bips` and
/// `(amount - initial) * additional_periods` cannot overflow.
pub fn calculate_unlocked_0(
    commenced_timestamp: u32,
    current_timestamp: u32,
    amount: u32,
    release_count: u32,
    delay_until_first_release_in_seconds: u32,
    initial_release_portion_in_bips: u32,
    period_between_releases_in_seconds: u32,
) -> (unlocked: u32)
    requires
        release_count >= 1,
        initial_release_portion_in_bips <= BIPS_PRECISION,
    ensures
        unlocked == unlocked_amount(
            commenced_timestamp,
            current_timestamp,
            amount,
            release_count,
            delay_until_first_release_in_seconds,
            initial_release_portion_in_bips,
            period_between_releases_in_seconds,
        ),
        unlocked <= amount,
{
    if commenced_timestamp > current_timestamp {
        return 0;
    }
    let seconds_elapsed: u64 = (current_timestamp - commenced_timestamp) as u64;
    let delay: u64 = delay_until_first_release_in_seconds as u64;
    let period: u64 = period_between_releases_in_seconds as u64;
    let releases_after_first: u64 = (release_count - 1) as u64;

    assert(period * releases_after_first <= 0xFFFF_FFFFu64 * 0xFFFF_FFFFu64)
        by (nonlinear_arith)
        requires
            period <= 0xFFFF_FFFFu64,
            releases_after_first <= 0xFFFF_FFFFu64,
    ;
    let full_threshold: u64 = delay + period * releases_after_first;
    if seconds_elapsed >= full_threshold {
        return amount;
    }
    if seconds_elapsed < delay {
        return 0;
    }
    assert((amount as u64) * (initial_release_portion_in_bips as u64)
        <= 0xFFFF_FFFFu64 * 10000u64) by (nonlinear_arith)
        requires
            initial_release_portion_in_bips <= 10000,
    ;
    let initial: u64 = (amount as u64) * (initial_release_portion_in_bips as u64)
        / (BIPS_PRECISION as u64);
    proof {
        assert((amount as int) * (initial_release_portion_in_bips as int)
            <= (BIPS_PRECISION as int) * (amount as int)) by (nonlinear_arith)
            requires
                initial_release_portion_in_bips <= BIPS_PRECISION,
        ;
        lemma_multiply_divide_le(
            (amount as int) * (initial_release_portion_in_bips as int),
            BIPS_PRECISION as int,
            amount as int,
        );
        assert(initial <= amount);
    }
    if seconds_elapsed - delay < period {
        return initial as u32;
    }
    proof {
        // Past the initial tranche but short of full maturity: at least one
        // further period has elapsed, so the period is positive and there is
        // more than one release.
        assert(period > 0 && releases_after_first > 0) by (nonlinear_arith)
            requires
                seconds_elapsed < delay + period * releases_after_first,
                seconds_elapsed - delay >= period,
                period >= 0,
                releases_after_first >= 0,
                delay >= 0,
        ;
    }
    let additional_periods: u64 = (seconds_elapsed - delay) / period;
    proof {
        lemma_multiply_divide_lt(
            seconds_elapsed - delay,
            period as int,
            releases_after_first as int,
        );
        assert(additional_periods < releases_after_first);
        assert((amount as u64 - initial) * additional_periods
            <= 0xFFFF_FFFFu64 * 0xFFFF_FFFFu64) by (nonlinear_arith)
            requires
                amount as u64 - initial <= 0xFFFF_FFFFu64,
                additional_periods <= 0xFFFF_FFFFu64,
        ;
        assert((amount - initial) * (additional_periods as int)
            <= (releases_after_first as int) * (amount - initial)) by (nonlinear_arith)
            requires
                additional_periods <= releases_after_first,
                initial <= amount,
        ;
        lemma_multiply_divide_le(
            (amount - initial) * (additional_periods as int),
            releases_after_first as int,
            amount - initial,
        );
    }
    let unlocked: u64 = initial
        + (amount as u64 - initial) * additional_periods / releases_after_first;
    assert(unlocked <= amount);
    unlocked as u32
}

/// The unlocked amount never goes negative and never exceeds the principal:
/// for every current time `t`, `0 <= unlocked_amount(..) <= amount`.
pub proof fn lemma_unlocked_le_amount(
    commenced: u32,
    current: u32,
    amount: u32,
    release_count: u32,
    delay: u32,
    initial_bips: u32,
    period: u32,
)
    requires
        release_count >= 1,
        initial_bips <= BIPS_PRECISION,
    ensures
        0 <= unlocked_amount(commenced, current, amount, release_count, delay, initial_bips, period),
        unlocked_amount(commenced, current, amount, release_count, delay, initial_bips, period)
            <= amount,
{
    if commenced > current {
        return;
    }
    let elapsed = current - commenced;
    let releases_after_first = release_count - 1;
    if elapsed >= delay + period * releases_after_first {
        return;
    }
    if elapsed < delay {
        return;
    }
    let initial = (amount * initial_bips) / (BIPS_PRECISION as int);
    assert((amount as int) * (initial_bips as int) <= (BIPS_PRECISION as int) * (amount as int))
        by (nonlinear_arith)
        requires
            initial_bips <= BIPS_PRECISION,
    ;
    lemma_multiply_divide_le(
        (amount as int) * (initial_bips as int),
        BIPS_PRECISION as int,
        amount as int,
    );
    lemma_div_pos_is_pos((amount as int) * (initial_bips as int), BIPS_PRECISION as int);
    assert((amount as int) * (initial_bips as int) >= 0) by (nonlinear_arith);
    assert(0 <= initial <= amount);
    if elapsed - delay < period {
        return;
    }
    assert(period > 0 && releases_after_first > 0) by (nonlinear_arith)
        requires
            elapsed < delay + period * releases_after_first,
            elapsed - delay >= period,
            period >= 0,
            releases_after_first >= 0,
            delay >= 0,
    ;
    let additional_periods = (elapsed - delay) / (period as int);
    lemma_multiply_divide_lt(elapsed - delay, period as int, releases_after_first as int);
    lemma_div_pos_is_pos(elapsed - delay, period as int);
    assert((amount - initial) * additional_periods >= 0) by (nonlinear_arith)
        requires
            initial <= amount,
            additional_periods >= 0,
    ;
    lemma_div_pos_is_pos((amount - initial) * additional_periods, releases_after_first as int);
    assert((amount - initial) * additional_periods
        <= (releases_after_first as int) * (amount - initial)) by (nonlinear_arith)
        requires
            additional_periods <= releases_after_first,
            initial <= amount,
    ;
    lemma_multiply_divide_le(
        (amount - initial) * additional_periods,
        releases_after_first as int,
        amount - initial,
    );
}

/// Once the entire schedule has matured — the current time has reached
/// `commenced + delay + period * (release_count - 1)` — the unlocked amount
/// is exactly the whole principal.
pub proof fn lemma_unlocked_full(
    commenced: u32,
    current: u32,
    amount: u32,
    release_count: u32,
    delay: u32,
    initial_bips: u32,
    period: u32,
)
    requires
        release_count >= 1,
        current >= commenced + delay + period * (release_count - 1),
    ensures
        unlocked_amount(commenced, current, amount, release_count, delay, initial_bips, period)
            == amount,
{
    assert(period * (release_count - 1) >= 0) by (nonlinear_arith)
        requires
            release_count >= 1,
            period >= 0,
    ;
}

/// A single-release schedule (one release event, all 10000 bips initial)
/// unlocks the whole principal as soon as the cliff delay has passed.
pub proof fn lemma_single_release_full(
    commenced: u32,
    current: u32,
    amount: u32,
    delay: u32,
    initial_bips: u32,
    period: u32,
)
    requires
        initial_bips == BIPS_PRECISION,
        current >= commenced + delay,
    ensures
        unlocked_amount(commenced, current, amount, 1, delay, initial_bips, period) == amount,
{
    assert(period * (1u32 - 1) == 0) by (nonlinear_arith);
}

/// The calculator is a pure function of its arguments: two calls with
/// identical arguments yield identical results.
pub proof fn lemma_unlocked_deterministic(
    commenced1: u32,
    current1: u32,
    amount1: u32,
    release_count1: u32,
    delay1: u32,
    initial_bips1: u32,
    period1: u32,
    commenced2: u32,
    current2: u32,
    amount2: u32,
    release_count2: u32,
    delay2: u32,
    initial_bips2: u32,
    period2: u32,
)
    requires
        commenced1 == commenced2,
        current1 == current2,
        amount1 == amount2,
        release_count1 == release_count2,
        delay1 == delay2,
        initial_bips1 == initial_bips2,
        period1 == period2,
    ensures
        unlocked_amount(commenced1, current1, amount1, release_count1, delay1, initial_bips1, period1)
            == unlocked_amount(
            commenced2,
            current2,
            amount2,
            release_count2,
            delay2,
            initial_bips2,
            period2,
        ),
{
}

/// Monotonicity: for a fixed valid schedule, principal and commencement,
/// the unlocked amount never decreases as the current time advances.
pub proof fn lemma_unlocked_monotonic(
    commenced: u32,
    earlier: u32,
    later: u32,
    amount: u32,
    release_count: u32,
    delay: u32,
    initial_bips: u32,
    period: u32,
)
    requires
        release_count >= 1,
        initial_bips <= BIPS_PRECISION,
        earlier <= later,
    ensures
        unlocked_amount(commenced, earlier, amount, release_count, delay, initial_bips, period)
            <= unlocked_amount(commenced, later, amount, release_count, delay, initial_bips, period),
{
    lemma_unlocked_le_amount(commenced, earlier, amount, release_count, delay, initial_bips, period);
    lemma_unlocked_le_amount(commenced, later, amount, release_count, delay, initial_bips, period);
    if commenced > earlier {
        return;
    }
    let e1 = earlier - commenced;
    let e2 = later - commenced;
    let releases_after_first = release_count - 1;
    let full = delay + period * releases_after_first;
    if e2 >= full {
        return;
    }
    if e1 < delay {
        return;
    }
    let initial = (amount * initial_bips) / (BIPS_PRECISION as int);
    assert((amount as int) * (initial_bips as int) <= (BIPS_PRECISION as int) * (amount as int))
        by (nonlinear_arith)
        requires
            initial_bips <= BIPS_PRECISION,
    ;
    lemma_multiply_divide_le(
        (amount as int) * (initial_bips as int),
        BIPS_PRECISION as int,
        amount as int,
    );
    assert(initial <= amount);
    if e2 - delay < period {
        return;
    }
    // Both times sit past the cliff and short of full maturity; the extra
    // linear tranche grows with the number of elapsed periods.
    assert(period > 0 && releases_after_first > 0) by (nonlinear_arith)
        requires
            e2 < delay + period * releases_after_first,
            e2 - delay >= period,
            period >= 0,
            releases_after_first >= 0,
            delay >= 0,
    ;
    let ap2 = (e2 - delay) / (period as int);
    lemma_div_pos_is_pos(e2 - delay, period as int);
    if e1 - delay < period {
        assert((amount - initial) * ap2 >= 0) by (nonlinear_arith)
            requires
                initial <= amount,
                ap2 >= 0,
        ;
        lemma_div_pos_is_pos((amount - initial) * ap2, releases_after_first as int);
    } else {
        let ap1 = (e1 - delay) / (period as int);
        lemma_div_is_ordered(e1 - delay, e2 - delay, period as int);
        lemma_div_pos_is_pos(e1 - delay, period as int);
        assert((amount - initial) * ap1 <= (amount - initial) * ap2) by (nonlinear_arith)
            requires
                initial <= amount,
                0 <= ap1 <= ap2,
        ;
        lemma_div_is_ordered(
            (amount - initial) * ap1,
            (amount - initial) * ap2,
            releases_after_first as int,
        );
    }
}

/// Unlocked amount under a `ReleaseSchedule` value.
pub fn calculate_unlocked(
    commenced_timestamp: u32,
    current_timestamp: u32,
    amount: u32,
    release_schedule: &ReleaseSchedule,
) -> (unlocked: u32)
    requires
        release_schedule.is_valid(),
    ensures
        unlocked == unlocked_amount(
            commenced_timestamp,
            current_timestamp,
            amount,
            release_schedule.release_count,
            release_schedule.delay_until_first_release_in_seconds,
            release_schedule.initial_release_portion_in_bips,
            release_schedule.period_between_releases_in_seconds,
        ),
        unlocked <= amount,
{
    calculate_unlocked_0(
        commenced_timestamp,
        current_timestamp,
        amount,
        release_schedule.release_count,
        release_schedule.delay_until_first_release_in_seconds,
        release_schedule.initial_release_portion_in_bips,
        release_schedule.period_between_releases_in_seconds,
    )
}

} // verus!

