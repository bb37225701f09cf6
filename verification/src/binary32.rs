//! Single precision numbers, carried by their bits.
use vstd::arithmetic::power2::{
    lemma2_to64, lemma_pow2_adds, lemma_pow2_pos, lemma_pow2_strictly_increases, pow2,
};
use vstd::prelude::*;

verus! {

/// An IEEE 754 single precision number. The library carries it and compares
/// it; whoever owns the tensors computes with it.
#[derive(Debug, Clone, Copy, PartialEq, Eq, Structural)]
pub struct Binary32 {
    pub bits: u32,
}

/// The number 1.
pub const ONE_BITS: u32 = 0x3F80_0000;

impl Binary32 {
    /// The sign bit.
    pub open spec fn negative(self) -> bool {
        self.bits >= 0x8000_0000
    }

    /// The exponent field.
    pub open spec fn exponent(self) -> nat {
        (self.bits as nat / 0x80_0000) % 0x100
    }

    /// The fraction field.
    pub open spec fn fraction(self) -> nat {
        self.bits as nat % 0x80_0000
    }

    /// Not a number.
    pub open spec fn is_nan(self) -> bool {
        self.exponent() == 0xFF && self.fraction() != 0
    }

    /// Positive or negative infinity.
    pub open spec fn is_infinite(self) -> bool {
        self.exponent() == 0xFF && self.fraction() == 0
    }

    /// The absolute value of a finite number, in units of the smallest positive
    /// one, which is 2 to the power of -149.
    pub open spec fn magnitude(self) -> nat {
        if self.exponent() == 0 {
            self.fraction()
        } else {
            (0x80_0000 + self.fraction()) * pow2((self.exponent() - 1) as nat)
        }
    }

    /// The value of a finite number, in units of 2 to the power of -149.
    pub open spec fn units(self) -> int {
        if self.negative() {
            -(self.magnitude() as int)
        } else {
            self.magnitude() as int
        }
    }

    /// The number is the integer `n`.
    pub open spec fn is_number(self, n: int) -> bool {
        &&& self.exponent() < 0xFF
        &&& self.units() == n * pow2(149)
    }

    /// The number differs from 1 by more than the machine epsilon, which is 2 to
    /// the power of -23. What is not a number does not.
    pub open spec fn departs_from_one(self) -> bool {
        let gap = self.units() - pow2(149);
        &&& !self.is_nan()
        &&& self.is_infinite() || gap > pow2(126) || -gap > pow2(126)
    }

    /// Whether the number differs from 1 by more than the machine epsilon.
    pub fn differs_from_one(self) -> (differs: bool)
        ensures
            differs == self.departs_from_one(),
    {
        proof {
            law_neighbours_of_one(self);
        }
        if self.bits >= 0x8000_0000 {
            self.bits <= 0xFF80_0000
        } else {
            self.bits <= 0x7F80_0000 && !(0x3F7F_FFFE <= self.bits && self.bits <= 0x3F80_0001)
        }
    }
}

/// The numbers within the machine epsilon of 1 are two below it, itself and one
/// above it.
pub proof fn law_neighbours_of_one(x: Binary32)
    ensures
        x.negative() ==> x.departs_from_one() == (x.bits <= 0xFF80_0000),
        !x.negative() ==> x.departs_from_one() == (x.bits <= 0x7F80_0000 && !(0x3F7F_FFFE <= x.bits
            <= 0x3F80_0001)),
{
    let e = x.exponent();
    let f = x.fraction();
    lemma2_to64();
    lemma_pow2_pos(124);
    lemma_pow2_adds(1, 124);
    lemma_pow2_adds(1, 125);
    lemma_pow2_adds(1, 126);
    lemma_pow2_adds(25, 124);
    let p = pow2(124);
    assert(pow2(125) == 2 * p);
    assert(pow2(126) == 4 * p);
    assert(pow2(127) == 8 * p);
    assert(pow2(149) == 0x200_0000 * p);
    if e == 0xFF || x.negative() {
    } else if e == 0 {
        lemma_pow2_strictly_increases(23, 124);
    } else if e <= 125 {
        let q = pow2((e - 1) as nat);
        if e < 125 {
            lemma_pow2_strictly_increases((e - 1) as nat, 124);
        }
        assert((0x80_0000 + f) * q <= 0x100_0000 * p) by (nonlinear_arith)
            requires
                0 <= f < 0x80_0000,
                0 <= q <= p,
        ;
    } else if e == 126 {
        let gap = 0x80_0000 - f;
        assert((0x80_0000 + f) * (2 * p) == 0x200_0000 * p - 2 * (gap * p)) by (nonlinear_arith)
            requires
                gap == 0x80_0000 - f,
        ;
        assert(gap > 2 ==> gap * p > 2 * p) by (nonlinear_arith)
            requires
                p > 0,
        ;
        assert(0 <= gap <= 2 ==> 0 <= gap * p <= 2 * p) by (nonlinear_arith)
            requires
                p > 0,
        ;
    } else if e == 127 {
        assert((0x80_0000 + f) * (4 * p) == 0x200_0000 * p + 4 * (f * p)) by (nonlinear_arith);
        assert(f > 1 ==> f * p > p) by (nonlinear_arith)
            requires
                p > 0,
        ;
        assert(0 <= f <= 1 ==> 0 <= f * p <= p) by (nonlinear_arith)
            requires
                p > 0,
        ;
    } else {
        let q = pow2((e - 1) as nat);
        if e > 128 {
            lemma_pow2_strictly_increases(127, (e - 1) as nat);
        }
        assert((0x80_0000 + f) * q >= 0x80_0000 * (8 * p)) by (nonlinear_arith)
            requires
                0 <= f,
                0 <= 8 * p <= q,
        ;
    }
}

} // verus!
