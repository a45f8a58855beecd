//! Mathematical model of the tracker.
//!
//! A position register of width `w >= 8` bits is modelled by its bit pattern,
//! an integer in `[0, 2^w)`; `modulus` below is `2^w`. The logical delta type
//! is an 8-bit signed count, so raw differences are reduced to a signed byte.
//! All spec functions here are over unbounded integers; the executable code in
//! `encoder` is proved to follow them exactly.

use vstd::prelude::*;
use vstd::arithmetic::div_mod::lemma_fundamental_div_mod;
use vstd::arithmetic::div_mod::lemma_fundamental_div_mod_converse_mod;
use vstd::arithmetic::div_mod::lemma_mod_mod;
use vstd::arithmetic::div_mod::lemma_basic_div;
use vstd::arithmetic::div_mod::lemma_mod_division_less_than_divisor;
use vstd::arithmetic::div_mod::lemma_div_by_self;
use vstd::arithmetic::div_mod::lemma_small_mod;
use vstd::arithmetic::div_mod::lemma_mod_multiples_vanish;
use vstd::arithmetic::mul::lemma_mul_is_associative;
use vstd::arithmetic::mul::lemma_mul_is_commutative;
use vstd::arithmetic::mul::lemma_mul_unary_negation;

verus! {

/// Abstract state of a tracker: every field of the executable tracker as a
/// plain integer, together with the modulus of its position type.
pub struct TrackerModel {
    /// Timestamp of the last sample whose raw value differed from the
    /// previous one.
    pub last_active: int,
    /// Bit pattern of the raw position used as the zero-reference for the
    /// next delta computation.
    pub last_effective: int,
    /// Bit pattern of the most recently observed raw position.
    pub last_real: int,
    /// Maximum allowed idle gap, in ticks, before re-referencing.
    pub reset_timeout: int,
    /// Raw counter increments per logical division; strictly positive.
    pub divisor: int,
    /// `2^w` for a `w`-bit position register.
    pub modulus: int,
}

impl TrackerModel {
    /// Well-formedness: the divisor is a positive signed byte, the position
    /// type is at least 8 bits wide, and all fields are in range.
    pub open spec fn wf(self) -> bool {
        &&& 1 <= self.divisor <= 127
        &&& 256 <= self.modulus
        &&& self.modulus % 256 == 0
        &&& 0 <= self.last_effective < self.modulus
        &&& 0 <= self.last_real < self.modulus
        &&& 0 <= self.last_active <= u32::MAX
        &&& 0 <= self.reset_timeout <= u32::MAX
    }
}

/// Reinterprets `n`, reduced modulo 256, as a signed byte in `[-128, 128)`.
/// This is the meaning of casting a wrapped raw difference to the delta type.
pub open spec fn as_signed_byte(n: int) -> int {
    let low = n % 256;
    if low < 128 {
        low
    } else {
        low - 256
    }
}

/// Quotient of truncating division (rounds toward zero), for `b > 0`.
pub open spec fn div_trunc(a: int, b: int) -> int {
    if a >= 0 {
        a / b
    } else {
        -((-a) / b)
    }
}

/// Remainder of truncating division; its sign follows `a`.
pub open spec fn rem_trunc(a: int, b: int) -> int {
    a - b * div_trunc(a, b)
}

/// The sample at `ts` is stale: the clock has advanced past the last real
/// movement by more than the timeout.
pub open spec fn is_stale(m: TrackerModel, ts: int) -> bool {
    ts > m.last_active + m.reset_timeout
}

/// The zero-reference used by the delta computation at `ts`: the held real
/// position after a timeout, the accumulated effective position otherwise.
pub open spec fn reference_position(m: TrackerModel, ts: int) -> int {
    if is_stale(m, ts) {
        m.last_real
    } else {
        m.last_effective
    }
}

/// The wrapped raw difference between the new sample and the reference,
/// reinterpreted as a signed byte.
pub open spec fn raw_delta(m: TrackerModel, raw: int, ts: int) -> int {
    as_signed_byte(raw - reference_position(m, ts))
}

/// The number of whole divisions crossed by the sample `(raw, ts)`: the
/// value the conversion operation returns.
pub open spec fn divisions(m: TrackerModel, raw: int, ts: int) -> int {
    div_trunc(raw_delta(m, raw, ts), m.divisor)
}

/// The tracker state after the sample `(raw, ts)`: the reference advances by
/// the whole-division portion of the delta, and the activity fields record
/// the sample only if the raw position actually moved.
pub open spec fn next_state(m: TrackerModel, raw: int, ts: int) -> TrackerModel {
    let base = reference_position(m, ts);
    let delta = as_signed_byte(raw - base);
    let remainder = rem_trunc(delta, m.divisor);
    TrackerModel {
        last_effective: (base + (delta - remainder)) % m.modulus,
        last_real: raw,
        last_active: if raw == m.last_real {
            m.last_active
        } else {
            ts
        },
        ..m
    }
}

/// A value already in `[0, m)` that is congruent to `v` modulo `m` is
/// `v % m`.
pub proof fn lemma_mod_congruent(v: int, n: int, m: int)
    requires
        m > 0,
        0 <= n < m,
        (v - n) % m == 0,
    ensures
        v % m == n,
{
    let k = (v - n) / m;
    lemma_fundamental_div_mod(v - n, m);
    lemma_mul_is_commutative(m, k);
    lemma_fundamental_div_mod_converse_mod(v, m, k, n);
}

/// Values congruent modulo 256 reduce to the same signed byte.
pub proof fn lemma_signed_byte_congruent(a: int, b: int)
    requires
        (a - b) % 256 == 0,
    ensures
        as_signed_byte(a) == as_signed_byte(b),
{
    lemma_fundamental_div_mod(a - b, 256);
    lemma_fundamental_div_mod(b, 256);
    lemma_mod_division_less_than_divisor(b, 256);
    lemma_fundamental_div_mod_converse_mod(a, 256, (a - b) / 256 + b / 256, b % 256);
}

/// `as_signed_byte(x)` differs from `x` by a multiple of 256.
pub proof fn lemma_signed_byte_residue(x: int)
    ensures
        (x - as_signed_byte(x)) % 256 == 0,
{
    lemma_fundamental_div_mod(x, 256);
    if x % 256 < 128 {
        lemma_mod_multiples_vanish(x / 256, 0, 256);
    } else {
        lemma_mod_multiples_vanish(x / 256 + 1, 0, 256);
    }
}

/// Reducing an integer modulo the register width changes it by a multiple
/// of 256: the register width is itself a multiple of 256.
pub proof fn lemma_mod_residue_byte(t: int, m: int)
    requires
        256 <= m,
        m % 256 == 0,
    ensures
        ((t % m) - t) % 256 == 0,
        (t - (t % m)) % 256 == 0,
{
    lemma_fundamental_div_mod(t, m);
    lemma_fundamental_div_mod(m, 256);
    let q = t / m;
    let c = m / 256;
    lemma_mul_is_associative(256, c, q);
    lemma_mod_multiples_vanish(c * q, 0, 256);
    lemma_mod_multiples_vanish(-(c * q), 0, 256);
}

/// A signed byte in `[-128, 128)` reduces to itself.
pub proof fn lemma_signed_byte_small(a: int)
    requires
        -128 <= a < 128,
    ensures
        as_signed_byte(a) == a,
{
    if a >= 0 {
        lemma_small_mod(a as nat, 256);
    } else {
        lemma_mod_congruent(a, a + 256, 256);
    }
}

/// Reduction modulo the position width, then modulo 256, is reduction
/// modulo 256: the position type is at least a byte wide.
pub proof fn lemma_mod_of_modulus(x: int, m: int)
    requires
        256 <= m,
        m % 256 == 0,
    ensures
        (x % m) % 256 == x % 256,
{
    lemma_fundamental_div_mod(m, 256);
    lemma_mod_mod(x, 256, m / 256);
}

/// Truncating division by a strictly larger divisor yields zero and leaves
/// the dividend as the remainder.
pub proof fn lemma_div_trunc_small(a: int, b: int)
    requires
        0 < b,
        -b < a < b,
    ensures
        div_trunc(a, b) == 0,
        rem_trunc(a, b) == a,
{
    if a >= 0 {
        lemma_basic_div(a, b);
    } else {
        lemma_basic_div(-a, b);
    }
}

/// Bounds of the truncating remainder: it carries the sign of the dividend,
/// is smaller than the divisor in magnitude, and does not exceed the
/// dividend in magnitude.
pub proof fn lemma_rem_trunc_bounds(a: int, b: int)
    requires
        0 < b,
    ensures
        a >= 0 ==> 0 <= rem_trunc(a, b) <= a,
        a < 0 ==> a <= rem_trunc(a, b) <= 0,
        -b < rem_trunc(a, b) < b,
{
    if a >= 0 {
        lemma_fundamental_div_mod(a, b);
        lemma_mod_division_less_than_divisor(a, b);
        if a < b {
            lemma_small_mod(a as nat, b as nat);
        }
    } else {
        lemma_fundamental_div_mod(-a, b);
        lemma_mod_division_less_than_divisor(-a, b);
        lemma_mul_unary_negation(b, (-a) / b);
        if -a < b {
            lemma_small_mod((-a) as nat, b as nat);
        }
    }
}

/// Dividing a positive divisor by itself counts one whole division.
pub proof fn lemma_div_trunc_self(b: int)
    requires
        0 < b,
    ensures
        div_trunc(b, b) == 1,
        rem_trunc(b, b) == 0,
        div_trunc(-b, b) == -1,
        rem_trunc(-b, b) == 0,
{
    lemma_div_by_self(b);
}

} // verus!
