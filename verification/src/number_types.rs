use vstd::prelude::*;

verus! {

/// All scalar quantities in this crate are fixed-point numbers held in a
/// `u64`: a value of `v` thousandths is stored as the raw integer `v`.
/// `UNIT` is the raw representation of 1, and also the upper bound of the
/// `Fraction` and `Rate` types.
pub const UNIT: u64 = 1000;

/// Addition on raw values, saturating at the largest representable value.
pub open spec fn sat_add(a: int, b: int) -> int {
    if a + b <= u64::MAX {
        a + b
    } else {
        u64::MAX as int
    }
}

/// Subtraction on raw values, clipped at zero.
pub open spec fn clip_sub(a: int, b: int) -> int {
    if a >= b {
        a - b
    } else {
        0
    }
}

/// Fixed-point product of two amounts (`a` times `b`, both in units of
/// `UNIT`), saturating at the largest representable value.
pub open spec fn scale_mul(a: int, b: int) -> int {
    if a * b / (UNIT as int) <= u64::MAX {
        a * b / (UNIT as int)
    } else {
        u64::MAX as int
    }
}

/// Fixed-point product of an amount and a rate, clipped into [0, UNIT].
pub open spec fn frac_mul(a: int, r: int) -> int {
    if a * r / (UNIT as int) <= UNIT {
        a * r / (UNIT as int)
    } else {
        UNIT as int
    }
}

/// Addition of two fractions, clipped at UNIT.
pub open spec fn frac_add(a: int, b: int) -> int {
    if a + b <= UNIT {
        a + b
    } else {
        UNIT as int
    }
}

pub(crate) proof fn lemma_mul_fits_u128(a: u64, b: u64)
    ensures
        (a as int) * (b as int) <= u128::MAX as int,
{
    assert((a as int) * (b as int) <= u128::MAX as int) by (nonlinear_arith)
        requires
            a <= u64::MAX,
            b <= u64::MAX,
    ;
}

/// A non-negative scalar quantity (energy, food), in thousandths of a unit.
#[derive(Clone, Copy, Debug, PartialEq)]
pub struct Amount {
    raw: u64,
}

impl View for Amount {
    type V = u64;

    closed spec fn view(&self) -> u64 {
        self.raw
    }
}

impl Amount {
    pub fn new(raw: u64) -> (r: Amount)
        ensures
            r@ == raw,
    {
        Amount { raw }
    }

    pub fn value(&self) -> (r: u64)
        ensures
            r == self@,
    {
        self.raw
    }

    pub fn min(self, other: Amount) -> (r: Amount)
        ensures
            r@ == if self@ <= other@ {
                self@
            } else {
                other@
            },
    {
        if self.raw <= other.raw {
            self
        } else {
            other
        }
    }

    pub fn saturating_add(self, other: Amount) -> (r: Amount)
        ensures
            r@ == sat_add(self@ as int, other@ as int),
    {
        if self.raw <= u64::MAX - other.raw {
            Amount { raw: self.raw + other.raw }
        } else {
            Amount { raw: u64::MAX }
        }
    }

    pub fn clipped_sub(self, other: Amount) -> (r: Amount)
        ensures
            r@ == clip_sub(self@ as int, other@ as int),
    {
        if self.raw >= other.raw {
            Amount { raw: self.raw - other.raw }
        } else {
            Amount { raw: 0 }
        }
    }

    pub fn times(self, other: Amount) -> (r: Amount)
        ensures
            r@ == scale_mul(self@ as int, other@ as int),
    {
        proof {
            lemma_mul_fits_u128(self.raw, other.raw);
        }
        let p: u128 = (self.raw as u128) * (other.raw as u128) / (UNIT as u128);
        if p > (u64::MAX as u128) {
            Amount { raw: u64::MAX }
        } else {
            Amount { raw: p as u64 }
        }
    }

    pub fn divided_by(self, count: usize) -> (r: Amount)
        requires
            count > 0,
        ensures
            r@ == self@ as int / count as int,
    {
        Amount { raw: self.raw / (count as u64) }
    }
}

/// A scalar bounded to [0, 1] (health), in thousandths: the raw value never
/// exceeds `UNIT`.
#[derive(Clone, Copy, Debug, PartialEq)]
pub struct Fraction {
    raw: u64,
}

impl View for Fraction {
    type V = u64;

    closed spec fn view(&self) -> u64 {
        self.raw
    }
}

impl Fraction {
    /// The type's invariant: a fraction's raw value never exceeds `UNIT`.
    /// `use_type_invariant` on any fraction held by executable code yields
    /// this fact; `lemma_fraction_bounded` turns it into the bound itself.
    #[verifier::type_invariant]
    pub closed spec fn in_range(self) -> bool {
        self.raw <= UNIT
    }

    pub fn checked(raw: u64) -> (r: Fraction)
        requires
            raw <= UNIT,
        ensures
            r@ == raw,
    {
        Fraction { raw }
    }

    pub fn clipped(raw: u64) -> (r: Fraction)
        ensures
            r@ == if raw <= UNIT {
                raw as int
            } else {
                UNIT as int
            },
    {
        if raw <= UNIT {
            Fraction { raw }
        } else {
            Fraction { raw: UNIT }
        }
    }

    pub fn zero() -> (r: Fraction)
        ensures
            r@ == 0,
    {
        Fraction { raw: 0 }
    }

    pub fn one() -> (r: Fraction)
        ensures
            r@ == UNIT,
    {
        Fraction { raw: UNIT }
    }

    pub fn value(&self) -> (r: u64)
        ensures
            r == self@,
            r <= UNIT,
    {
        proof {
            use_type_invariant(self);
        }
        self.raw
    }

    pub fn add_clipped(self, other: Fraction) -> (r: Fraction)
        ensures
            r@ == frac_add(self@ as int, other@ as int),
    {
        proof {
            use_type_invariant(self);
            use_type_invariant(other);
        }
        let s: u64 = self.raw + other.raw;
        if s <= UNIT {
            Fraction { raw: s }
        } else {
            Fraction { raw: UNIT }
        }
    }

    pub fn sub_clipped(self, other: Fraction) -> (r: Fraction)
        ensures
            r@ == clip_sub(self@ as int, other@ as int),
    {
        proof {
            use_type_invariant(self);
        }
        if self.raw >= other.raw {
            Fraction { raw: self.raw - other.raw }
        } else {
            Fraction { raw: 0 }
        }
    }
}

/// Every fraction's value lies in [0, UNIT]: the type's invariant, which
/// every constructor establishes and every operation preserves.
pub proof fn lemma_fraction_bounded(f: Fraction)
    requires
        f.in_range(),
    ensures
        f@ <= UNIT,
{
}

/// A multiplier in [0, 1] per unit of `Amount` (health change per unit of
/// energy), in thousandths: the raw value never exceeds `UNIT`.
#[derive(Clone, Copy, Debug, PartialEq)]
pub struct Rate {
    raw: u64,
}

impl View for Rate {
    type V = u64;

    closed spec fn view(&self) -> u64 {
        self.raw
    }
}

impl Rate {
    #[verifier::type_invariant]
    spec fn in_range(self) -> bool {
        self.raw <= UNIT
    }

    pub fn checked(raw: u64) -> (r: Rate)
        requires
            raw <= UNIT,
        ensures
            r@ == raw,
    {
        Rate { raw }
    }

    pub fn clipped(raw: u64) -> (r: Rate)
        ensures
            r@ == if raw <= UNIT {
                raw as int
            } else {
                UNIT as int
            },
    {
        if raw <= UNIT {
            Rate { raw }
        } else {
            Rate { raw: UNIT }
        }
    }

    pub fn zero() -> (r: Rate)
        ensures
            r@ == 0,
    {
        Rate { raw: 0 }
    }

    pub fn value(&self) -> (r: u64)
        ensures
            r == self@,
            r <= UNIT,
    {
        proof {
            use_type_invariant(self);
        }
        self.raw
    }

    /// The fraction produced by applying this rate to `amount`.
    pub fn times(self, amount: Amount) -> (r: Fraction)
        ensures
            r@ == frac_mul(amount@ as int, self@ as int),
    {
        proof {
            lemma_mul_fits_u128(amount.raw, self.raw);
        }
        let p: u128 = (amount.raw as u128) * (self.raw as u128) / (UNIT as u128);
        if p > (UNIT as u128) {
            Fraction { raw: UNIT }
        } else {
            Fraction { raw: p as u64 }
        }
    }
}

} // verus!
