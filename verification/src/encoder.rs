//! The tracker itself: construction and the single conversion operation.

use vstd::prelude::*;
use vstd::arithmetic::div_mod::lemma_div_nonincreasing;
use vstd::arithmetic::div_mod::lemma_fundamental_div_mod;
use vstd::arithmetic::div_mod::lemma_mod_division_less_than_divisor;
use vstd::arithmetic::mul::lemma_mul_unary_negation;
use crate::model::TrackerModel;
use crate::model::div_trunc;
use crate::model::rem_trunc;
use crate::model::divisions;
use crate::model::next_state;
use crate::model::reference_position;
use crate::model::lemma_mod_of_modulus;
use crate::model::lemma_rem_trunc_bounds;
use crate::position::EncoderPosition;

verus! {

/// Converts a stream of `(raw_position, timestamp)` samples from a
/// wraparound hardware counter into signed logical division counts.
///
/// `Pos` is the raw register type; timestamps are `u32` ticks in whatever
/// unit the caller samples, and deltas are `i8` division counts.
pub struct RotaryEncoder<Pos: EncoderPosition> {
    last_active: u32,
    last_effective_raw_position: Pos,
    last_real_raw_position: Pos,
    reset_timeout: u32,
    div: i8,
}

impl<Pos: EncoderPosition> View for RotaryEncoder<Pos> {
    type V = TrackerModel;

    closed spec fn view(&self) -> TrackerModel {
        TrackerModel {
            last_active: self.last_active as int,
            last_effective: self.last_effective_raw_position.bit_pattern(),
            last_real: self.last_real_raw_position.bit_pattern(),
            reset_timeout: self.reset_timeout as int,
            divisor: self.div as int,
            modulus: Pos::modulus(),
        }
    }
}

/// Truncating division of a signed byte delta by the positive divisor:
/// quotient rounded toward zero, remainder carrying the dividend's sign.
fn div_rem_trunc(delta: i8, div: i8) -> (qr: (i8, i8))
    requires
        1 <= div,
    ensures
        qr.0 as int == div_trunc(delta as int, div as int),
        qr.1 as int == rem_trunc(delta as int, div as int),
{
    if delta >= 0 {
        let du: u8 = delta as u8;
        let dv: u8 = div as u8;
        let q: u8 = du / dv;
        let r: u8 = du % dv;
        proof {
            lemma_div_nonincreasing(du as int, dv as int);
            lemma_fundamental_div_mod(du as int, dv as int);
            lemma_mod_division_less_than_divisor(du as int, dv as int);
        }
        (q as i8, r as i8)
    } else {
        let n: i16 = -(delta as i16);
        let nu: u16 = n as u16;
        let dv: u16 = div as u16;
        let q: u16 = nu / dv;
        let r: u16 = nu % dv;
        proof {
            lemma_div_nonincreasing(nu as int, dv as int);
            lemma_fundamental_div_mod(nu as int, dv as int);
            lemma_mod_division_less_than_divisor(nu as int, dv as int);
            lemma_mul_unary_negation(dv as int, nu as int / dv as int);
        }
        let qi: i16 = -(q as i16);
        let ri: i16 = -(r as i16);
        (qi as i8, ri as i8)
    }
}

impl<Pos: EncoderPosition> RotaryEncoder<Pos> {
    /// The tracker's model is well formed.
    pub open spec fn wf(self) -> bool {
        self@.wf()
    }

    /// Creates a tracker that counts `div` raw increments per logical
    /// division and re-references after an idle gap longer than
    /// `reset_timeout` ticks. All position and timestamp state starts at
    /// zero. The divisor must be positive; a non-positive divisor is a
    /// caller error, not a runtime-checked condition.
    pub fn new(div: i8, reset_timeout: u32) -> (tracker: Self)
        requires
            1 <= div,
        ensures
            tracker.wf(),
            tracker@ == (TrackerModel {
                last_active: 0,
                last_effective: 0,
                last_real: 0,
                reset_timeout: reset_timeout as int,
                divisor: div as int,
                modulus: Pos::modulus(),
            }),
    {
        proof {
            Pos::lemma_modulus();
        }
        RotaryEncoder {
            div,
            last_active: 0,
            last_effective_raw_position: Pos::zero_position(),
            last_real_raw_position: Pos::zero_position(),
            reset_timeout,
        }
    }

    /// Converts one sample into the number of whole divisions crossed since
    /// the previous call.
    ///
    /// The result is exactly `divisions` of the model applied to the old
    /// state, and the state steps to `next_state`: a stale sample first
    /// re-references the tracker at the last really observed position, the
    /// wrapped raw difference is read as a signed byte and split by the
    /// divisor, the reference advances by the whole-division portion only,
    /// and the activity fields record the sample only if the raw position
    /// actually moved. The staleness window `last_active + reset_timeout`
    /// is formed with checked arithmetic, so a window reaching past the end
    /// of the tick range never wraps: it simply cannot expire.
    pub fn get_delta(&mut self, raw_position: Pos, ts: u32) -> (result: i8)
        requires
            old(self).wf(),
        ensures
            final(self).wf(),
            result as int == divisions(old(self)@, raw_position.bit_pattern(), ts as int),
            final(self)@ == next_state(old(self)@, raw_position.bit_pattern(), ts as int),
    {
        proof {
            Pos::lemma_modulus();
            raw_position.lemma_in_range();
        }
        let stale: bool = match self.last_active.checked_add(self.reset_timeout) {
            Some(limit) => limit.checked_sub(ts).is_none(),
            None => false,
        };
        if stale {
            self.last_effective_raw_position = self.last_real_raw_position;
        }
        let wrapped: Pos = raw_position.sub_wrapped(self.last_effective_raw_position);
        let delta: i8 = wrapped.as_delta();
        proof {
            lemma_mod_of_modulus(
                raw_position.bit_pattern() - reference_position(old(self)@, ts as int),
                Pos::modulus(),
            );
        }
        let qr: (i8, i8) = div_rem_trunc(delta, self.div);
        let result: i8 = qr.0;
        let remainder: i8 = qr.1;
        proof {
            lemma_rem_trunc_bounds(delta as int, self.div as int);
        }
        let advance: i8 = delta - remainder;
        self.last_effective_raw_position =
            self.last_effective_raw_position.add_delta_wrapped(advance);
        proof {
            self.last_effective_raw_position.lemma_in_range();
        }
        if !raw_position.same_as(self.last_real_raw_position) {
            self.last_active = ts;
            self.last_real_raw_position = raw_position;
        }
        result
    }
}

} // verus!
