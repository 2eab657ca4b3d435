//! Difficulty and targets. A difficulty is a plain `u64`; its target is the
//! big-endian 256-bit number `MAX_TARGET / difficulty`.

use vstd::prelude::*;

verus! {

/// Value of a big-endian byte string as a natural number.
pub open spec fn be_value(s: Seq<u8>) -> nat
    decreases s.len(),
{
    if s.len() == 0 {
        0
    } else {
        be_value(s.drop_last()) * 256 + (s.last() as nat)
    }
}

/// Largest 256-bit value, 2^256 - 1.
pub open spec fn max_target_value() -> nat {
    be_value(Seq::new(32, |i: int| 0xffu8))
}

/// Maximum target (= difficulty 1): 2^256 - 1.
pub const MAX_TARGET: [u8; 32] = [0xff, 0xff, 0xff, 0xff, 0xff, 0xff, 0xff, 0xff, 0xff, 0xff, 0xff, 0xff, 0xff, 0xff, 0xff, 0xff, 0xff, 0xff, 0xff, 0xff, 0xff, 0xff, 0xff, 0xff, 0xff, 0xff, 0xff, 0xff, 0xff, 0xff, 0xff, 0xff];

/// `be_value` of a prefix one byte longer.
pub proof fn lemma_be_value_take_step(s: Seq<u8>, i: int)
    requires
        0 <= i < s.len(),
    ensures
        be_value(s.take(i + 1)) == be_value(s.take(i)) * 256 + s[i],
{
    assert(s.take(i + 1).drop_last() =~= s.take(i));
}

/// Long division of a big-endian 256-bit number by a nonzero `u64`.
fn divide_be_by_u64(num: [u8; 32], divisor: u64) -> (result: [u8; 32])
    requires
        divisor > 0,
    ensures
        be_value(result@) == be_value(num@) / (divisor as nat),
{
    let mut remainder: u128 = 0;
    let mut result = [0u8; 32];
    let d: u128 = divisor as u128;
    let mut i: usize = 0;
    assert(num@.take(0) =~= Seq::<u8>::empty());
    assert(result@.take(0) =~= Seq::<u8>::empty());
    assert(be_value(Seq::<u8>::empty()) == 0);
    assert(0 * d == 0);
    while i < 32
        invariant
            0 <= i <= 32,
            d == divisor as u128,
            d > 0,
            remainder < d,
            result@.len() == 32,
            be_value(num@.take(i as int)) == be_value(result@.take(i as int)) * d + remainder,
        decreases 32 - i,
    {
        let ghost old_result = result@;
        let ghost rem0 = remainder;
        assert(remainder < 0x1_0000_0000_0000_0000u128);
        let byte: u8 = num[i];
        assert((remainder << 8u128) | (byte as u128) == remainder * 256 + byte) by (bit_vector)
            requires
                remainder < 0x1_0000_0000_0000_0000u128,
        ;
        let cur: u128 = (remainder << 8) | byte as u128;
        assert(cur < d * 256) by (nonlinear_arith)
            requires
                cur == rem0 * 256 + byte,
                rem0 < d,
                byte < 256,
        ;
        let q: u128 = cur / d;
        assert(q < 256) by (nonlinear_arith)
            requires
                cur < d * 256,
                q == cur / d,
                d > 0,
        ;
        result[i] = q as u8;
        remainder = cur % d;
        proof {
            lemma_be_value_take_step(num@, i as int);
            lemma_be_value_take_step(result@, i as int);
            assert(result@.take(i as int) =~= old_result.take(i as int));
            let r = be_value(result@.take(i as int));
            assert(cur == q * d + remainder) by (nonlinear_arith)
                requires
                    q == cur / d,
                    remainder == cur % d,
                    d > 0,
            ;
            assert(be_value(num@.take(i as int)) == r * d + rem0);
            assert((r * d + rem0) * 256 + byte == (r * 256 + q) * d + remainder)
                by (nonlinear_arith)
                requires
                    cur == rem0 * 256 + byte,
                    cur == q * d + remainder,
            ;
        }
        i = i + 1;
    }
    proof {
        assert(num@.take(32) =~= num@);
        assert(result@.take(32) =~= result@);
        let r = be_value(result@);
        let n = be_value(num@);
        assert(n == r * d + remainder);
        vstd::arithmetic::div_mod::lemma_fundamental_div_mod_converse(
            n as int,
            d as int,
            r as int,
            remainder as int,
        );
    }
    result
}

/// Converts a difficulty into a big-endian 256-bit target,
/// `MAX_TARGET / max(difficulty, 1)`.
pub fn target_for_difficulty(difficulty: u64) -> (target: [u8; 32])
    ensures
        be_value(target@) == max_target_value() / (if difficulty == 0 { 1 } else { difficulty as nat }),
{
    let difficulty = if difficulty < 1 { 1 } else { difficulty };
    assert(MAX_TARGET@ =~= Seq::new(32, |i: int| 0xffu8));
    divide_be_by_u64(MAX_TARGET, difficulty)
}


/// The target value `MAX_TARGET / max(difficulty, 1)` as a number.
pub open spec fn target_value(difficulty: u64) -> nat {
    max_target_value() / (if difficulty == 0 { 1 } else { difficulty as nat })
}

/// A higher difficulty never gives a larger target.
pub proof fn lemma_target_decreases_with_difficulty(d1: u64, d2: u64)
    requires
        d1 <= d2,
    ensures
        target_value(d2) <= target_value(d1),
{
    let a = if d1 == 0 { 1 } else { d1 as int };
    let b = if d2 == 0 { 1 } else { d2 as int };
    vstd::arithmetic::div_mod::lemma_div_is_ordered_by_denominator(max_target_value() as int, a, b);
}

/// `x * y` saturated at `u64::MAX`.
pub open spec fn saturating_mul_u64(x: u64, y: u64) -> u64 {
    if x * y > u64::MAX { u64::MAX } else { (x * y) as u64 }
}

/// Timespan the retarget window is meant to take: `max(block_time * window, 1)`,
/// the product saturated at `u64::MAX`.
pub open spec fn target_timespan(target_block_time_secs: u64, window: u64) -> u64 {
    let t = saturating_mul_u64(target_block_time_secs, window);
    if t < 1 { 1 } else { t }
}

/// Observed timespan clamped to `[target / 4, target * 4]` and to at least 1.
pub open spec fn clamped_timespan(actual: u64, target: u64) -> int {
    let lo = if actual < target / 4 { (target / 4) as int } else { actual as int };
    let hi = if lo > target * 4 { target * 4 } else { lo };
    if hi < 1 { 1 } else { hi }
}

/// The quotient `prev * target / clamped`, before it is bounded to 64 bits.
pub open spec fn retarget_quotient(prev: u64, actual: u64, block_time: u64, window: u64) -> int {
    let target = target_timespan(block_time, window);
    (prev * target) / clamped_timespan(actual, target)
}

/// The retargeted difficulty: the quotient saturated at `u64::MAX`, and at
/// least 1.
pub open spec fn next_difficulty_spec(prev: u64, actual: u64, block_time: u64, window: u64) -> u64 {
    let r = retarget_quotient(prev, actual, block_time, window);
    let q = if r > u64::MAX { u64::MAX } else { r as u64 };
    if q < 1 { 1 } else { q }
}

/// Retargets difficulty from the time observed over the block window against
/// the target time, the correction factor clamped to [1/4x, 4x].
pub fn next_difficulty(
    prev_difficulty: u64,
    actual_timespan_secs: u64,
    target_block_time_secs: u64,
    window: u64,
) -> (d: u64)
    requires
        target_timespan(target_block_time_secs, window) * 4 <= u64::MAX,
    ensures
        d == next_difficulty_spec(prev_difficulty, actual_timespan_secs, target_block_time_secs, window),
        d >= 1,
        target_timespan(target_block_time_secs, window) / 4 <= actual_timespan_secs <= target_timespan(target_block_time_secs, window) * 4
            && actual_timespan_secs >= 1 ==> d == bounded_difficulty(
                (prev_difficulty * target_timespan(target_block_time_secs, window)) / (actual_timespan_secs as int)),
{
    let prod: u128 = target_block_time_secs as u128 * window as u128;
    let sat: u64 = if prod > 0xffff_ffff_ffff_ffffu128 { 0xffff_ffff_ffff_ffffu64 } else { prod as u64 };
    let target_timespan: u64 = if sat < 1 { 1 } else { sat };
    let quarter: u64 = target_timespan / 4;
    let lo: u64 = if actual_timespan_secs < quarter { quarter } else { actual_timespan_secs };
    let four: u64 = target_timespan * 4;
    let hi: u64 = if lo > four { four } else { lo };
    let actual: u64 = if hi < 1 { 1 } else { hi };
    assert((prev_difficulty as u128) * (target_timespan as u128) <= 0xffff_ffff_ffff_ffffu128 * 0xffff_ffff_ffff_ffffu128) by (nonlinear_arith);
    let num: u128 = prev_difficulty as u128 * target_timespan as u128;
    let q: u128 = num / actual as u128;
    let new_diff: u64 = if q > 0xffff_ffff_ffff_ffffu128 { 0xffff_ffff_ffff_ffffu64 } else { q as u64 };
    if new_diff < 1 { 1 } else { new_diff }
}

/// When blocks arrived no slower than targeted (the observed timespan is at
/// most the target timespan), the difficulty does not go down.
pub proof fn lemma_fast_blocks_do_not_lower_difficulty(prev: u64, actual: u64, block_time: u64, window: u64)
    requires
        actual <= target_timespan(block_time, window),
    ensures
        next_difficulty_spec(prev, actual, block_time, window) >= prev,
{
    let t = target_timespan(block_time, window) as int;
    let c = clamped_timespan(actual, t as u64);
    assert(1 <= c <= t);
    assert((prev * t) / c >= prev) by (nonlinear_arith)
        requires
            1 <= c <= t,
            prev >= 0,
    {
        assert(prev * t >= prev * c);
        vstd::arithmetic::div_mod::lemma_div_is_ordered(prev * c, prev * t, c);
        vstd::arithmetic::div_mod::lemma_div_multiples_vanish(prev as int, c);
    }
}

/// When blocks arrived no faster than targeted, the difficulty does not go
/// up (it can only stay or drop, never below 1).
pub proof fn lemma_slow_blocks_do_not_raise_difficulty(prev: u64, actual: u64, block_time: u64, window: u64)
    requires
        actual >= target_timespan(block_time, window),
        prev >= 1,
    ensures
        next_difficulty_spec(prev, actual, block_time, window) <= prev,
{
    let t = target_timespan(block_time, window) as int;
    let c = clamped_timespan(actual, t as u64);
    assert(c >= t);
    assert(t >= 1);
    assert((prev * t) / c <= prev) by (nonlinear_arith)
        requires
            c >= t >= 1,
            prev >= 0,
    {
        assert(prev * t <= prev * c);
        vstd::arithmetic::div_mod::lemma_div_is_ordered(prev * t, prev * c, c);
        vstd::arithmetic::div_mod::lemma_div_multiples_vanish(prev as int, c);
    }
    let q = retarget_quotient(prev, actual, block_time, window);
    assert(q >= 0) by (nonlinear_arith)
        requires
            q == (prev * t) / c,
            prev >= 0,
            t >= 0,
            c >= 1,
    ;
}

/// The correction is clamped: the new difficulty never exceeds
/// `prev * target / floor(target / 4)` nor falls below
/// `prev * target / (target * 4)` (when that fits in 64 bits).
pub proof fn lemma_retarget_is_clamped(prev: u64, actual: u64, block_time: u64, window: u64)
    requires
        target_timespan(block_time, window) >= 4,
    ensures
        retarget_quotient(prev, actual, block_time, window) <= (prev * target_timespan(block_time, window)) / (target_timespan(block_time, window) / 4) as int,
        retarget_quotient(prev, actual, block_time, window) >= (prev * target_timespan(block_time, window)) / (target_timespan(block_time, window) * 4) as int,
{
    let t = target_timespan(block_time, window) as int;
    let c = clamped_timespan(actual, t as u64);
    assert(t / 4 <= c <= t * 4);
    assert(t / 4 >= 1);
    let n = prev * t;
    assert(n >= 0) by (nonlinear_arith) requires n == prev * t, prev >= 0, t >= 0;
    vstd::arithmetic::div_mod::lemma_div_is_ordered_by_denominator(n, t / 4, c);
    vstd::arithmetic::div_mod::lemma_div_is_ordered_by_denominator(n, c, t * 4);
}

/// The retarget ratio bounded to a difficulty: at least 1 and at most
/// `u64::MAX`.
pub open spec fn bounded_difficulty(q: int) -> u64 {
    if q > u64::MAX { u64::MAX } else if q < 1 { 1 } else { q as u64 }
}

/// Inside the band `[target / 4, 4 * target]` the observed timespan is used
/// as it is: the new difficulty is `prev * target / actual` (bounded to
/// `[1, u64::MAX]`), so a window twice as slow as targeted halves the
/// difficulty and one twice as fast doubles it.
pub proof fn lemma_retarget_inside_band(prev: u64, actual: u64, block_time: u64, window: u64)
    requires
        target_timespan(block_time, window) / 4 <= actual <= target_timespan(block_time, window) * 4,
        actual >= 1,
    ensures
        next_difficulty_spec(prev, actual, block_time, window)
            == bounded_difficulty((prev * target_timespan(block_time, window)) / (actual as int)),
{
}

/// Outside the band the observed timespan counts as its nearest edge: a
/// window more than four times too slow gives `prev * target / (4 * target)`,
/// one more than four times too fast gives `prev * target / (target / 4)`.
pub proof fn lemma_retarget_outside_band(prev: u64, actual: u64, block_time: u64, window: u64)
    requires
        target_timespan(block_time, window) >= 4,
    ensures
        actual > target_timespan(block_time, window) * 4 ==> next_difficulty_spec(prev, actual, block_time, window)
            == bounded_difficulty((prev * target_timespan(block_time, window)) / (target_timespan(block_time, window) * 4) as int),
        actual < target_timespan(block_time, window) / 4 ==> next_difficulty_spec(prev, actual, block_time, window)
            == bounded_difficulty((prev * target_timespan(block_time, window)) / (target_timespan(block_time, window) / 4) as int),
{
}

} // verus!
