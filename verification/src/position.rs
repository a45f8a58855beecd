//! The capability contract of a raw position register type, and its
//! implementations for the fixed-width integer types.
//!
//! A register value is modelled by its bit pattern: an integer in
//! `[0, modulus())`, where `modulus()` is `2^w` for a `w`-bit type. Wrapping
//! arithmetic is arithmetic modulo `modulus()`; the cast to the signed delta
//! type reads the low byte of the pattern.

use vstd::prelude::*;
use vstd::arithmetic::div_mod::lemma_small_mod;
use crate::model::as_signed_byte;
use crate::model::lemma_mod_congruent;

verus! {

/// What a raw position type must provide: wrapping arithmetic over a
/// power-of-two range of at least 256 values, equality, a zero value, and
/// the numeric casts to and from an 8-bit signed delta.
pub trait EncoderPosition: Sized + Copy {
    /// `2^w`: the number of distinct register values.
    spec fn modulus() -> int;

    /// The value's bit pattern, an integer in `[0, modulus())`.
    spec fn bit_pattern(self) -> int;

    /// The register is at least 8 bits wide, so its modulus is a positive
    /// multiple of 256.
    proof fn lemma_modulus()
        ensures
            256 <= Self::modulus(),
            Self::modulus() % 256 == 0,
    ;

    /// Every value's bit pattern lies in `[0, modulus())`.
    proof fn lemma_in_range(self)
        ensures
            0 <= self.bit_pattern() < Self::modulus(),
    ;

    /// The all-zero register value, the default starting reference.
    fn zero_position() -> (r: Self)
        ensures
            r.bit_pattern() == 0,
    ;

    /// Whether two register values are identical.
    fn same_as(self, other: Self) -> (r: bool)
        ensures
            r <==> self.bit_pattern() == other.bit_pattern(),
    ;

    /// Wrapping subtraction over the register width.
    fn sub_wrapped(self, other: Self) -> (r: Self)
        ensures
            r.bit_pattern() == (self.bit_pattern() - other.bit_pattern()) % Self::modulus(),
    ;

    /// The numeric cast to the delta type: the low byte of the register,
    /// reinterpreted as a signed count.
    fn as_delta(self) -> (r: i8)
        ensures
            r as int == as_signed_byte(self.bit_pattern()),
    ;

    /// The numeric cast from the delta type followed by wrapping addition:
    /// advances the register by a signed byte, modulo the register width.
    fn add_delta_wrapped(self, d: i8) -> (r: Self)
        ensures
            r.bit_pattern() == (self.bit_pattern() + d) % Self::modulus(),
    ;
}

impl EncoderPosition for i8 {
    open spec fn modulus() -> int {
        256
    }

    open spec fn bit_pattern(self) -> int {
        if self >= 0 {
            self as int
        } else {
            self as int + 256
        }
    }

    proof fn lemma_modulus() {
    }

    proof fn lemma_in_range(self) {
    }

    fn zero_position() -> (r: Self) {
        0
    }

    fn same_as(self, other: Self) -> (r: bool) {
        self == other
    }

    fn sub_wrapped(self, other: Self) -> (r: Self) {
        let r = self.wrapping_sub(other);
        proof {
            lemma_mod_congruent(self.bit_pattern() - other.bit_pattern(), r.bit_pattern(), 256);
        }
        r
    }

    fn as_delta(self) -> (r: i8) {
        proof {
            lemma_small_mod(self.bit_pattern() as nat, 256);
        }
        self
    }

    fn add_delta_wrapped(self, d: i8) -> (r: Self) {
        let r = self.wrapping_add(d);
        proof {
            lemma_mod_congruent(self.bit_pattern() + d, r.bit_pattern(), 256);
        }
        r
    }
}

impl EncoderPosition for u8 {
    open spec fn modulus() -> int {
        256
    }

    open spec fn bit_pattern(self) -> int {
        self as int
    }

    proof fn lemma_modulus() {
    }

    proof fn lemma_in_range(self) {
    }

    fn zero_position() -> (r: Self) {
        0
    }

    fn same_as(self, other: Self) -> (r: bool) {
        self == other
    }

    fn sub_wrapped(self, other: Self) -> (r: Self) {
        let r = self.wrapping_sub(other);
        proof {
            lemma_mod_congruent(self.bit_pattern() - other.bit_pattern(), r.bit_pattern(), 256);
        }
        r
    }

    fn as_delta(self) -> (r: i8) {
        proof {
            lemma_small_mod(self as nat, 256);
        }
        if self < 128 {
            self as i8
        } else {
            ((self as i16) - 256) as i8
        }
    }

    fn add_delta_wrapped(self, d: i8) -> (r: Self) {
        let r = self.wrapping_add_signed(d);
        proof {
            lemma_mod_congruent(self.bit_pattern() + d, r.bit_pattern(), 256);
        }
        r
    }
}

impl EncoderPosition for i16 {
    open spec fn modulus() -> int {
        0x1_0000
    }

    open spec fn bit_pattern(self) -> int {
        if self >= 0 {
            self as int
        } else {
            self as int + 0x1_0000
        }
    }

    proof fn lemma_modulus() {
    }

    proof fn lemma_in_range(self) {
    }

    fn zero_position() -> (r: Self) {
        0
    }

    fn same_as(self, other: Self) -> (r: bool) {
        self == other
    }

    fn sub_wrapped(self, other: Self) -> (r: Self) {
        let r = self.wrapping_sub(other);
        proof {
            lemma_mod_congruent(self.bit_pattern() - other.bit_pattern(), r.bit_pattern(), 0x1_0000);
        }
        r
    }

    fn as_delta(self) -> (r: i8) {
        let u: u16 = if self >= 0 {
            self as u16
        } else {
            ((self as i32) + 0x1_0000i32) as u16
        };
        let low: u16 = u % 256;
        if low < 128 {
            low as i8
        } else {
            ((low as i16) - 256) as i8
        }
    }

    fn add_delta_wrapped(self, d: i8) -> (r: Self) {
        let r = self.wrapping_add(d as i16);
        proof {
            lemma_mod_congruent(self.bit_pattern() + d, r.bit_pattern(), 0x1_0000);
        }
        r
    }
}

impl EncoderPosition for u16 {
    open spec fn modulus() -> int {
        0x1_0000
    }

    open spec fn bit_pattern(self) -> int {
        self as int
    }

    proof fn lemma_modulus() {
    }

    proof fn lemma_in_range(self) {
    }

    fn zero_position() -> (r: Self) {
        0
    }

    fn same_as(self, other: Self) -> (r: bool) {
        self == other
    }

    fn sub_wrapped(self, other: Self) -> (r: Self) {
        let r = self.wrapping_sub(other);
        proof {
            lemma_mod_congruent(self.bit_pattern() - other.bit_pattern(), r.bit_pattern(), 0x1_0000);
        }
        r
    }

    fn as_delta(self) -> (r: i8) {
        let low: u16 = self % 256;
        if low < 128 {
            low as i8
        } else {
            ((low as i32) - 256) as i8
        }
    }

    fn add_delta_wrapped(self, d: i8) -> (r: Self) {
        let r = self.wrapping_add_signed(d as i16);
        proof {
            lemma_mod_congruent(self.bit_pattern() + d, r.bit_pattern(), 0x1_0000);
        }
        r
    }
}

impl EncoderPosition for i32 {
    open spec fn modulus() -> int {
        0x1_0000_0000
    }

    open spec fn bit_pattern(self) -> int {
        if self >= 0 {
            self as int
        } else {
            self as int + 0x1_0000_0000
        }
    }

    proof fn lemma_modulus() {
    }

    proof fn lemma_in_range(self) {
    }

    fn zero_position() -> (r: Self) {
        0
    }

    fn same_as(self, other: Self) -> (r: bool) {
        self == other
    }

    fn sub_wrapped(self, other: Self) -> (r: Self) {
        let r = self.wrapping_sub(other);
        proof {
            lemma_mod_congruent(
                self.bit_pattern() - other.bit_pattern(),
                r.bit_pattern(),
                0x1_0000_0000,
            );
        }
        r
    }

    fn as_delta(self) -> (r: i8) {
        let u: u32 = if self >= 0 {
            self as u32
        } else {
            ((self as i64) + 0x1_0000_0000i64) as u32
        };
        let low: u32 = u % 256;
        if low < 128 {
            low as i8
        } else {
            ((low as i32) - 256) as i8
        }
    }

    fn add_delta_wrapped(self, d: i8) -> (r: Self) {
        let r = self.wrapping_add(d as i32);
        proof {
            lemma_mod_congruent(self.bit_pattern() + d, r.bit_pattern(), 0x1_0000_0000);
        }
        r
    }
}

impl EncoderPosition for u32 {
    open spec fn modulus() -> int {
        0x1_0000_0000
    }

    open spec fn bit_pattern(self) -> int {
        self as int
    }

    proof fn lemma_modulus() {
    }

    proof fn lemma_in_range(self) {
    }

    fn zero_position() -> (r: Self) {
        0
    }

    fn same_as(self, other: Self) -> (r: bool) {
        self == other
    }

    fn sub_wrapped(self, other: Self) -> (r: Self) {
        let r = self.wrapping_sub(other);
        proof {
            lemma_mod_congruent(
                self.bit_pattern() - other.bit_pattern(),
                r.bit_pattern(),
                0x1_0000_0000,
            );
        }
        r
    }

    fn as_delta(self) -> (r: i8) {
        let low: u32 = self % 256;
        if low < 128 {
            low as i8
        } else {
            ((low as i32) - 256) as i8
        }
    }

    fn add_delta_wrapped(self, d: i8) -> (r: Self) {
        let r = self.wrapping_add_signed(d as i32);
        proof {
            lemma_mod_congruent(self.bit_pattern() + d, r.bit_pattern(), 0x1_0000_0000);
        }
        r
    }
}

} // verus!
