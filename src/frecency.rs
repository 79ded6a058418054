//! Frecency: a tag ranking score that blends how often a tag was used with
//! how recently it was last used.
//!
//! `score = frequency * 10 * 1 / (1 + days_since_use / 7)`, rounded to the
//! nearest integer (halves away from zero). Times are wall-clock milliseconds.
use vstd::prelude::*;

verus! {

/// Milliseconds in seven days: the half-weight period of the decay.
pub const WEEK_MS: i128 = 604_800_000;

/// Largest frequency whose score fits an `i64`.
pub const MAX_FREQUENCY: i64 = 922_337_203_685_477_580;

/// Numerator of the exact (unrounded) score:
/// `frequency * 10 * WEEK / (WEEK + elapsed)`.
pub open spec fn frecency_numerator(frequency: int) -> int {
    frequency * 10 * WEEK_MS
}

/// Denominator of the exact (unrounded) score.
pub open spec fn frecency_denominator(elapsed: int) -> int {
    WEEK_MS + elapsed
}

/// The exact score rounded to the nearest integer, halves rounded up.
pub open spec fn frecency_spec(frequency: int, last_used_at: int, now: int) -> int {
    let n = frecency_numerator(frequency);
    let d = frecency_denominator(now - last_used_at);
    (2 * n + d) / (2 * d)
}

/// Computes the frecency score of a tag used `frequency` times, last at
/// `last_used_at`, as seen at time `now`.
pub fn calculate_frecency(frequency: i64, last_used_at: i64, now: i64) -> (score: i64)
    requires
        0 <= frequency <= MAX_FREQUENCY,
        last_used_at <= now,
    ensures
        score == frecency_spec(frequency as int, last_used_at as int, now as int),
        0 <= score <= frequency * 10,
        last_used_at == now ==> score == frequency * 10,
{
    let elapsed: i128 = now as i128 - last_used_at as i128;
    let n: i128 = frequency as i128 * 10 * WEEK_MS;
    let d: i128 = WEEK_MS + elapsed;
    proof {
        lemma_rounded_quotient_bounds(n as int, d as int, frequency as int);
    }
    let score: i128 = (2 * n + d) / (2 * d);
    score as i64
}

proof fn lemma_rounded_quotient_bounds(n: int, d: int, frequency: int)
    requires
        0 <= frequency,
        n == frequency * 10 * WEEK_MS,
        d >= WEEK_MS,
    ensures
        0 <= (2 * n + d) / (2 * d) <= frequency * 10,
        d == WEEK_MS ==> (2 * n + d) / (2 * d) == frequency * 10,
{
    let q = (2 * n + d) / (2 * d);
    assert(0 <= q) by (nonlinear_arith)
        requires
            n >= 0,
            d > 0,
            q == (2 * n + d) / (2 * d),
    ;
    // q * 2d <= 2n + d  and  2n <= frequency * 10 * 2d, so q <= frequency * 10.
    assert(q <= frequency * 10) by (nonlinear_arith)
        requires
            frequency >= 0,
            n == frequency * 10 * WEEK_MS,
            d >= WEEK_MS,
            q == (2 * n + d) / (2 * d),
    ;
    if d == WEEK_MS {
        assert((2 * n + d) / (2 * d) == frequency * 10) by (nonlinear_arith)
            requires
                n == frequency * 10 * WEEK_MS,
                d == WEEK_MS,
        ;
    }
}

/// With no time elapsed since the last use there is no decay: the score is
/// exactly ten times the frequency.
pub proof fn lemma_no_decay_at_zero_elapsed(frequency: int, now: int)
    requires
        0 <= frequency,
    ensures
        frecency_spec(frequency, now, now) == frequency * 10,
{
    lemma_rounded_quotient_bounds(
        frecency_numerator(frequency),
        frecency_denominator(0),
        frequency,
    );
}

/// For a fixed positive frequency the exact score strictly decreases as the
/// time since the last use grows: `n / d1 > n / d2` as rationals, written
/// without division. The rounded score never increases.
pub proof fn lemma_decays_with_elapsed_time(frequency: int, elapsed1: int, elapsed2: int)
    requires
        0 < frequency,
        0 <= elapsed1 < elapsed2,
    ensures
        frecency_numerator(frequency) * frecency_denominator(elapsed2)
            > frecency_numerator(frequency) * frecency_denominator(elapsed1),
        frecency_spec(frequency, 0, elapsed1) >= frecency_spec(frequency, 0, elapsed2),
{
    let n = frecency_numerator(frequency);
    let d1 = frecency_denominator(elapsed1);
    let d2 = frecency_denominator(elapsed2);
    assert(n > 0) by (nonlinear_arith)
        requires
            n == frequency * 10 * WEEK_MS,
            frequency > 0,
    ;
    assert(n * d2 > n * d1) by (nonlinear_arith)
        requires
            n > 0,
            d1 < d2,
    ;
    lemma_rounding_monotone(n, d1, d2);
}

proof fn lemma_rounding_monotone(n: int, d1: int, d2: int)
    requires
        0 <= n,
        0 < d1 <= d2,
    ensures
        (2 * n + d1) / (2 * d1) >= (2 * n + d2) / (2 * d2),
{
    let q2 = (2 * n + d2) / (2 * d2);
    assert(q2 * (2 * d2) <= 2 * n + d2) by (nonlinear_arith)
        requires
            n >= 0,
            d2 > 0,
            q2 == (2 * n + d2) / (2 * d2),
    ;
    if q2 > 0 {
        assert((2 * q2 - 1) * d1 <= (2 * q2 - 1) * d2) by (nonlinear_arith)
            requires
                q2 > 0,
                d1 <= d2,
        ;
        assert(q2 <= (2 * n + d1) / (2 * d1)) by (nonlinear_arith)
            requires
                q2 * (2 * d2) <= 2 * n + d2,
                (2 * q2 - 1) * d1 <= (2 * q2 - 1) * d2,
                d1 > 0,
        ;
    } else {
        assert(0 <= (2 * n + d1) / (2 * d1)) by (nonlinear_arith)
            requires
                n >= 0,
                d1 > 0,
        ;
    }
}

/// At a fixed time since the last use, the exact score strictly increases
/// with the frequency (both scores share one denominator); the rounded score
/// never decreases.
pub proof fn lemma_grows_with_frequency(frequency1: int, frequency2: int, elapsed: int)
    requires
        0 <= frequency1 < frequency2,
        0 <= elapsed,
    ensures
        frecency_numerator(frequency1) < frecency_numerator(frequency2),
        frecency_spec(frequency1, 0, elapsed) <= frecency_spec(frequency2, 0, elapsed),
{
    let n1 = frecency_numerator(frequency1);
    let n2 = frecency_numerator(frequency2);
    let d = frecency_denominator(elapsed);
    assert(n1 < n2) by (nonlinear_arith)
        requires
            n1 == frequency1 * 10 * WEEK_MS,
            n2 == frequency2 * 10 * WEEK_MS,
            frequency1 < frequency2,
    ;
    assert((2 * n1 + d) / (2 * d) <= (2 * n2 + d) / (2 * d)) by (nonlinear_arith)
        requires
            0 <= n1 < n2,
            d > 0,
    ;
}

} // verus!
