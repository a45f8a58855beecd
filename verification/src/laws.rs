//! General properties of the tracker, proved once over the model.
//!
//! `get_delta` is specified exactly by `divisions` and `next_state`, so every
//! law below transfers to the executable tracker through that contract.

use vstd::prelude::*;
use vstd::arithmetic::div_mod::lemma_add_mod_noop_right;
use vstd::arithmetic::div_mod::lemma_div_basics;
use vstd::arithmetic::div_mod::lemma_mod_division_less_than_divisor;
use vstd::arithmetic::div_mod::lemma_mod_self_0;
use vstd::arithmetic::div_mod::lemma_small_mod;
use vstd::arithmetic::mul::lemma_mul_basics;
use vstd::arithmetic::mul::lemma_mul_is_commutative;
use vstd::arithmetic::mul::lemma_mul_unary_negation;
use crate::model::TrackerModel;
use crate::model::as_signed_byte;
use crate::model::divisions;
use crate::model::next_state;
use crate::model::raw_delta;
use crate::model::reference_position;
use crate::model::rem_trunc;
use crate::model::lemma_mod_residue_byte;
use crate::model::lemma_div_trunc_small;
use crate::model::lemma_div_trunc_self;
use crate::model::lemma_rem_trunc_bounds;
use crate::model::lemma_signed_byte_congruent;
use crate::model::lemma_signed_byte_residue;
use crate::model::lemma_signed_byte_small;

verus! {

/// Invariant of the reference position: immediately after a call, the
/// reference trails the submitted raw position by exactly the sub-division
/// remainder of that call, which is smaller than one division in magnitude.
pub proof fn lemma_reference_within_division(m: TrackerModel, raw: int, ts: int)
    requires
        m.wf(),
        0 <= raw < m.modulus,
        0 <= ts <= u32::MAX,
    ensures
        ({
            let m2 = next_state(m, raw, ts);
            let offset = as_signed_byte(raw - m2.last_effective);
            &&& m2.wf()
            &&& m2.modulus == m.modulus
            &&& m2.divisor == m.divisor
            &&& m2.reset_timeout == m.reset_timeout
            &&& m2.last_real == raw
            &&& offset == rem_trunc(raw_delta(m, raw, ts), m.divisor)
            &&& -m.divisor < offset < m.divisor
        }),
{
    let base = reference_position(m, ts);
    let delta = raw_delta(m, raw, ts);
    let remainder = rem_trunc(delta, m.divisor);
    let target = base + (delta - remainder);
    lemma_rem_trunc_bounds(delta, m.divisor);
    lemma_mod_division_less_than_divisor(target, m.modulus);
    lemma_mod_residue_byte(target, m.modulus);
    lemma_signed_byte_congruent(raw - (target % m.modulus), raw - target);
    lemma_signed_byte_residue(raw - base);
    lemma_signed_byte_congruent(raw - target, remainder);
    lemma_signed_byte_small(remainder);
}

/// Zero movement: once a raw position has been submitted, submitting the
/// same raw position again within the timeout yields 0 and leaves the
/// tracker unchanged, so any number of repeated samples yields 0.
pub proof fn lemma_zero_movement(m: TrackerModel, raw: int, ts1: int, ts2: int)
    requires
        m.wf(),
        0 <= raw < m.modulus,
        0 <= ts1 <= u32::MAX,
        ts2 <= next_state(m, raw, ts1).last_active + m.reset_timeout,
    ensures
        divisions(next_state(m, raw, ts1), raw, ts2) == 0,
        next_state(next_state(m, raw, ts1), raw, ts2) == next_state(m, raw, ts1),
{
    let m1 = next_state(m, raw, ts1);
    lemma_reference_within_division(m, raw, ts1);
    let offset = as_signed_byte(raw - m1.last_effective);
    lemma_div_trunc_small(offset, m.divisor);
    lemma_small_mod(m1.last_effective as nat, m.modulus as nat);
}

/// Unit divisor identity: with divisor 1, each call returns exactly the
/// wrapped signed difference between the new raw position and the
/// reference position in force for that call.
pub proof fn lemma_unit_divisor(m: TrackerModel, raw: int, ts: int)
    requires
        m.divisor == 1,
    ensures
        divisions(m, raw, ts) == raw_delta(m, raw, ts),
{
    let delta = raw_delta(m, raw, ts);
    lemma_div_basics(delta);
    lemma_div_basics(-delta);
}

/// Multiplying by a direction of `1` or `-1` preserves or negates.
proof fn lemma_dir_mul(x: int, dir: int)
    requires
        dir == 1 || dir == -1,
    ensures
        dir == 1 ==> x * dir == x && dir * x == x,
        dir == -1 ==> x * dir == -x && dir * x == -x,
{
    lemma_mul_basics(x);
    lemma_mul_unary_negation(x, 1);
    lemma_mul_is_commutative(x, dir);
}

/// One unit step of the raw position in direction `dir` (`1` or `-1`),
/// within the timeout, from a state whose sub-division offset in that
/// direction is `offset`: the call counts one division exactly when the
/// grown offset reaches the divisor, and otherwise returns 0 and keeps the
/// grown offset.
pub proof fn lemma_unit_step(
    m: TrackerModel,
    prev: int,
    raw: int,
    ts: int,
    offset: int,
    dir: int,
)
    requires
        m.wf(),
        dir == 1 || dir == -1,
        0 <= prev < m.modulus,
        raw == (prev + dir) % m.modulus,
        m.last_real == prev,
        offset == as_signed_byte(prev - m.last_effective),
        0 <= dir * offset < m.divisor,
        ts <= m.last_active + m.reset_timeout,
        0 <= ts <= u32::MAX,
    ensures
        divisions(m, raw, ts) == if dir * (offset + dir) == m.divisor {
            dir
        } else {
            0
        },
        ({
            let m2 = next_state(m, raw, ts);
            &&& m2.wf()
            &&& m2.modulus == m.modulus
            &&& m2.divisor == m.divisor
            &&& m2.reset_timeout == m.reset_timeout
            &&& m2.last_real == raw
            &&& m2.last_active == ts
            &&& as_signed_byte(raw - m2.last_effective) == if dir * (offset + dir) == m.divisor {
                0
            } else {
                offset + dir
            }
        }),
{
    let base = m.last_effective;
    lemma_dir_mul(offset, dir);
    lemma_dir_mul(offset + dir, dir);
    lemma_mod_residue_byte(prev + dir, m.modulus);
    lemma_signed_byte_congruent(raw - base, prev + dir - base);
    lemma_signed_byte_residue(prev - base);
    lemma_signed_byte_congruent(prev + dir - base, offset + dir);
    lemma_signed_byte_small(offset + dir);
    if dir * (offset + dir) == m.divisor {
        lemma_div_trunc_self(m.divisor);
    } else {
        lemma_div_trunc_small(offset + dir, m.divisor);
    }
    if prev + dir == m.modulus {
        lemma_mod_self_0(m.modulus);
    } else if prev + dir == -1 {
        vstd::arithmetic::div_mod::lemma_mod_multiples_vanish(-1, 0, m.modulus);
        crate::model::lemma_mod_congruent(-1, m.modulus - 1, m.modulus);
    } else {
        lemma_small_mod((prev + dir) as nat, m.modulus as nat);
    }
    lemma_reference_within_division(m, raw, ts);
}

/// The state after `k` consecutive unit raw samples in direction `dir`
/// starting above `start`, the `j`-th sample carrying timestamp `tss[j]`.
pub open spec fn after_unit_steps(
    m: TrackerModel,
    start: int,
    dir: int,
    tss: Seq<int>,
    k: nat,
) -> TrackerModel
    decreases k,
{
    if k == 0 {
        m
    } else {
        next_state(
            after_unit_steps(m, start, dir, tss, (k - 1) as nat),
            (start + k * dir) % m.modulus,
            tss[k - 1],
        )
    }
}

/// The timestamps of a run of `k` samples are in range, the first falls
/// within the tracker's staleness window, and each later one follows its
/// predecessor by at most the timeout.
pub open spec fn timestamps_within_timeout(m: TrackerModel, tss: Seq<int>, k: nat) -> bool {
    &&& k <= tss.len()
    &&& (forall|j: int| 0 <= j < k ==> 0 <= #[trigger] tss[j] <= u32::MAX)
    &&& (k > 0 ==> tss[0] <= m.last_active + m.reset_timeout)
    &&& (forall|j: int| 1 <= j < k ==> #[trigger] tss[j] <= tss[j - 1] + m.reset_timeout)
}

/// Running invariant of a run of unit steps from an aligned tracker: after
/// `i < divisor` steps no division has completed, the tracker follows the
/// raw position, and the sub-division offset is exactly `i` in the
/// direction of travel.
proof fn lemma_unit_steps_invariant(m: TrackerModel, start: int, dir: int, tss: Seq<int>, i: nat)
    requires
        m.wf(),
        dir == 1 || dir == -1,
        0 <= start < m.modulus,
        m.last_real == start,
        as_signed_byte(start - m.last_effective) == 0,
        timestamps_within_timeout(m, tss, (i + 1) as nat),
        i < m.divisor,
    ensures
        ({
            let mi = after_unit_steps(m, start, dir, tss, i);
            &&& mi.wf()
            &&& mi.modulus == m.modulus
            &&& mi.divisor == m.divisor
            &&& mi.reset_timeout == m.reset_timeout
            &&& mi.last_real == (start + i * dir) % m.modulus
            &&& as_signed_byte((start + i * dir) - mi.last_effective) == i * dir
            &&& tss[i as int] <= mi.last_active + mi.reset_timeout
        }),
    decreases i,
{
    if i == 0 {
        lemma_small_mod(start as nat, m.modulus as nat);
    } else {
        lemma_unit_steps_invariant(m, start, dir, tss, (i - 1) as nat);
        let mp = after_unit_steps(m, start, dir, tss, (i - 1) as nat);
        let prev = (start + (i - 1) * dir) % m.modulus;
        let raw = (start + i * dir) % m.modulus;
        let ts = tss[i - 1];
        lemma_dir_mul(i as int, dir);
        lemma_dir_mul(i - 1, dir);
        lemma_dir_mul((i - 1) * dir, dir);
        lemma_dir_mul((i - 1) * dir + dir, dir);
        lemma_mod_division_less_than_divisor(start + (i - 1) * dir, m.modulus);
        lemma_add_mod_noop_right(dir, start + (i - 1) * dir, m.modulus);
        assert(raw == (prev + dir) % m.modulus);
        lemma_mod_residue_byte(start + (i - 1) * dir, m.modulus);
        lemma_signed_byte_congruent(
            prev - mp.last_effective,
            (start + (i - 1) * dir) - mp.last_effective,
        );
        lemma_unit_step(mp, prev, raw, ts, ((i - 1) as int) * dir, dir);
        lemma_mod_residue_byte(start + i * dir, m.modulus);
        lemma_signed_byte_congruent(
            (start + i * dir) - next_state(mp, raw, ts).last_effective,
            raw - next_state(mp, raw, ts).last_effective,
        );
    }
}

/// Division granularity: starting from an aligned tracker with divisor `D`,
/// a run of `D` consecutive unit raw steps in one direction, each within
/// the timeout of its predecessor, yields a delta of plus or minus one
/// exactly on the `D`-th call and 0 on every earlier call.
pub proof fn lemma_division_granularity(
    m: TrackerModel,
    start: int,
    dir: int,
    tss: Seq<int>,
    k: nat,
)
    requires
        m.wf(),
        dir == 1 || dir == -1,
        0 <= start < m.modulus,
        m.last_real == start,
        as_signed_byte(start - m.last_effective) == 0,
        timestamps_within_timeout(m, tss, k),
        1 <= k <= m.divisor,
    ensures
        divisions(
            after_unit_steps(m, start, dir, tss, (k - 1) as nat),
            (start + k * dir) % m.modulus,
            tss[k - 1],
        ) == if k == m.divisor {
            dir
        } else {
            0
        },
{
    lemma_unit_steps_invariant(m, start, dir, tss, (k - 1) as nat);
    let mp = after_unit_steps(m, start, dir, tss, (k - 1) as nat);
    let prev = (start + (k - 1) * dir) % m.modulus;
    let raw = (start + k * dir) % m.modulus;
    let ts = tss[k - 1];
    lemma_dir_mul(k as int, dir);
    lemma_dir_mul(k - 1, dir);
    lemma_dir_mul((k - 1) * dir, dir);
    lemma_dir_mul((k - 1) * dir + dir, dir);
    lemma_mod_division_less_than_divisor(start + (k - 1) * dir, m.modulus);
    lemma_add_mod_noop_right(dir, start + (k - 1) * dir, m.modulus);
    lemma_mod_residue_byte(start + (k - 1) * dir, m.modulus);
    lemma_signed_byte_congruent(
        prev - mp.last_effective,
        (start + (k - 1) * dir) - mp.last_effective,
    );
    lemma_unit_step(mp, prev, raw, ts, ((k - 1) as int) * dir, dir);
}

/// Wraparound correctness: a unit step from the register's maximum bit
/// pattern wraps to zero and behaves like any other unit step — the offset
/// grows by one and a division is counted exactly when it reaches the
/// divisor, never a large spurious delta.
pub proof fn lemma_wraparound_step(m: TrackerModel, ts: int, offset: int)
    requires
        m.wf(),
        m.last_real == m.modulus - 1,
        offset == as_signed_byte((m.modulus - 1) - m.last_effective),
        0 <= offset < m.divisor,
        ts <= m.last_active + m.reset_timeout,
        0 <= ts <= u32::MAX,
    ensures
        divisions(m, 0, ts) == if offset + 1 == m.divisor {
            1int
        } else {
            0int
        },
{
    lemma_mod_self_0(m.modulus);
    lemma_unit_step(m, m.modulus - 1, 0, ts, offset, 1);
}

/// Timeout re-reference: when the raw position has been held across a gap
/// longer than the timeout, the call returns 0, any sub-division offset
/// accumulated before the gap is discarded, and the held position is the
/// reference for every subsequent sample.
pub proof fn lemma_timeout_re_reference(m: TrackerModel, ts: int)
    requires
        m.wf(),
        ts > m.last_active + m.reset_timeout,
        0 <= ts <= u32::MAX,
    ensures
        divisions(m, m.last_real, ts) == 0,
        next_state(m, m.last_real, ts).wf(),
        next_state(m, m.last_real, ts).last_effective == m.last_real,
        next_state(m, m.last_real, ts).last_active == m.last_active,
        forall|later: int|
            reference_position(next_state(m, m.last_real, ts), later) == m.last_real,
{
    lemma_signed_byte_small(0);
    lemma_div_trunc_small(0, m.divisor);
    lemma_small_mod(m.last_real as nat, m.modulus as nat);
}

} // verus!
