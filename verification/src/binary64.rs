//! IEEE 754 double-precision numbers, held as their bits and compared by value.
use vstd::prelude::*;

verus! {

/// A double-precision number: a share ratio or a download progress.
///
/// The number is kept as its 64-bit encoding. Comparisons go by the number that the bits
/// encode: both zeros are equal, and a NaN compares with nothing.
#[derive(Debug, Clone, Copy)]
pub struct Binary64 {
    pub bits: u64,
}

/// The encoding of 1.0.
pub const ONE_BITS: u64 = 0x3ff0_0000_0000_0000;

impl Binary64 {
    /// The sign bit.
    pub open spec fn negative(self) -> bool {
        self.bits >= 0x8000_0000_0000_0000
    }

    /// The eleven exponent bits.
    pub open spec fn exponent(self) -> nat {
        (self.bits as nat / 0x10_0000_0000_0000) % 0x800
    }

    /// The fifty-two fraction bits.
    pub open spec fn fraction(self) -> nat {
        self.bits as nat % 0x10_0000_0000_0000
    }

    pub open spec fn is_nan(self) -> bool {
        self.exponent() == 0x7ff && self.fraction() != 0
    }

    /// The absolute value in units of the smallest positive number. Infinity comes out as
    /// the next power of two above every finite number.
    pub open spec fn magnitude(self) -> nat {
        if self.exponent() == 0 {
            self.fraction()
        } else {
            (0x10_0000_0000_0000 + self.fraction()) * vstd::arithmetic::power2::pow2(
                (self.exponent() - 1) as nat,
            )
        }
    }

    /// The number in units of the smallest positive number.
    pub open spec fn value(self) -> int {
        if self.negative() {
            -(self.magnitude() as int)
        } else {
            self.magnitude() as int
        }
    }

    /// `self >= other` as numbers.
    pub open spec fn ge(self, other: Binary64) -> bool {
        !self.is_nan() && !other.is_nan() && self.value() >= other.value()
    }

    /// `self < other` as numbers.
    pub open spec fn lt(self, other: Binary64) -> bool {
        !self.is_nan() && !other.is_nan() && self.value() < other.value()
    }

    /// The number with the given encoding.
    pub fn from_bits(bits: u64) -> (r: Binary64)
        ensures
            r.bits == bits,
    {
        Binary64 { bits }
    }

    fn nan(&self) -> (r: bool)
        ensures
            r == self.is_nan(),
    {
        let exponent: u64 = (self.bits / 0x10_0000_0000_0000) % 0x800;
        let fraction: u64 = self.bits % 0x10_0000_0000_0000;
        exponent == 0x7ff && fraction != 0
    }

    /// A whole number that orders like the value, for numbers that are not NaN.
    closed spec fn rank(self) -> int {
        if self.negative() {
            -(self.bits - 0x8000_0000_0000_0000)
        } else {
            self.bits as int
        }
    }

    fn order_key(&self) -> (r: i64)
        ensures
            r == self.rank(),
    {
        if self.bits >= 0x8000_0000_0000_0000 {
            -((self.bits - 0x8000_0000_0000_0000) as i64)
        } else {
            self.bits as i64
        }
    }

    /// Larger encodings without their sign bit stand for larger magnitudes.
    proof fn lemma_magnitude_grows(a: Binary64, b: Binary64)
        requires
            a.bits < b.bits < 0x8000_0000_0000_0000,
        ensures
            a.magnitude() < b.magnitude(),
    {
        let unit: nat = 0x10_0000_0000_0000;
        let (ea, fa) = (a.exponent(), a.fraction());
        let (eb, fb) = (b.exponent(), b.fraction());
        assert(a.bits as nat == ea * unit + fa);
        assert(b.bits as nat == eb * unit + fb);
        assert(ea <= eb);
        vstd::arithmetic::power2::lemma2_to64();
        if ea == eb {
            assert(fa < fb);
            if ea > 0 {
                let p = vstd::arithmetic::power2::pow2((ea - 1) as nat);
                vstd::arithmetic::power2::lemma_pow2_pos((ea - 1) as nat);
                assert((unit + fa) * p < (unit + fb) * p) by (nonlinear_arith)
                    requires
                        fa < fb,
                        p > 0,
                ;
            }
        } else {
            let pb = vstd::arithmetic::power2::pow2((eb - 1) as nat);
            vstd::arithmetic::power2::lemma_pow2_pos((eb - 1) as nat);
            assert((unit + fb) * pb >= unit * pb) by (nonlinear_arith)
                requires
                    fb >= 0,
                    pb > 0,
            ;
            if ea == 0 {
                assert(unit * pb >= unit) by (nonlinear_arith)
                    requires
                        pb > 0,
                        unit >= 0,
                ;
            } else {
                let pa = vstd::arithmetic::power2::pow2((ea - 1) as nat);
                vstd::arithmetic::power2::lemma_pow2_pos((ea - 1) as nat);
                vstd::arithmetic::power2::lemma_pow2_unfold(ea);
                if ea < eb - 1 {
                    vstd::arithmetic::power2::lemma_pow2_strictly_increases(ea, (eb - 1) as nat);
                }
                assert(2 * pa <= pb);
                assert((unit + fa) * pa < unit * pb) by (nonlinear_arith)
                    requires
                        fa < unit,
                        pa > 0,
                        2 * pa <= pb,
                ;
            }
        }
    }

    /// The rank orders numbers as their values do.
    proof fn lemma_rank_orders(a: Binary64, b: Binary64)
        ensures
            a.rank() < b.rank() <==> a.value() < b.value(),
            a.rank() == b.rank() <==> a.value() == b.value(),
    {
        let half: u64 = 0x8000_0000_0000_0000;
        let pa = Binary64 { bits: if a.bits >= half { (a.bits - half) as u64 } else { a.bits } };
        let pb = Binary64 { bits: if b.bits >= half { (b.bits - half) as u64 } else { b.bits } };
        let zero = Binary64 { bits: 0 };
        assert(zero.magnitude() == 0);
        assert(pa.magnitude() == a.magnitude());
        assert(pb.magnitude() == b.magnitude());
        if pa.bits > 0 {
            Self::lemma_magnitude_grows(zero, pa);
        }
        if pb.bits > 0 {
            Self::lemma_magnitude_grows(zero, pb);
        }
        if pa.bits < pb.bits {
            Self::lemma_magnitude_grows(pa, pb);
        }
        if pb.bits < pa.bits {
            Self::lemma_magnitude_grows(pb, pa);
        }
    }

    /// `self >= other` as numbers.
    pub fn at_least(&self, other: &Binary64) -> (r: bool)
        ensures
            r == self.ge(*other),
    {
        proof {
            Self::lemma_rank_orders(*self, *other);
        }
        !self.nan() && !other.nan() && self.order_key() >= other.order_key()
    }

    /// `self < other` as numbers.
    pub fn below(&self, other: &Binary64) -> (r: bool)
        ensures
            r == self.lt(*other),
    {
        proof {
            Self::lemma_rank_orders(*self, *other);
        }
        !self.nan() && !other.nan() && self.order_key() < other.order_key()
    }
}

impl Default for Binary64 {
    /// Zero.
    fn default() -> (r: Binary64)
        ensures
            r.bits == 0,
    {
        Binary64 { bits: 0 }
    }
}

impl PartialEq for Binary64 {
    fn eq(&self, other: &Binary64) -> (r: bool) {
        proof {
            Self::lemma_rank_orders(*self, *other);
        }
        !self.nan() && !other.nan() && self.order_key() == other.order_key()
    }
}

impl vstd::std_specs::cmp::PartialEqSpecImpl for Binary64 {
    open spec fn obeys_eq_spec() -> bool {
        true
    }

    open spec fn eq_spec(&self, other: &Binary64) -> bool {
        !self.is_nan() && !other.is_nan() && self.value() == other.value()
    }
}

/// Numbers order by their bits: read as a sign and a magnitude, smaller bits stand for smaller
/// numbers. Where one of two is not a number, neither order holds.
pub proof fn law_numbers_order_by_their_bits(a: Binary64, b: Binary64)
    ensures
        ({
            let half: int = 0x8000_0000_0000_0000;
            let infinity: int = 0x7ff0_0000_0000_0000;
            let size_a = if a.bits >= half { a.bits - half } else { a.bits as int };
            let size_b = if b.bits >= half { b.bits - half } else { b.bits as int };
            let key_a = if a.bits >= half { -size_a } else { size_a };
            let key_b = if b.bits >= half { -size_b } else { size_b };
            if size_a <= infinity && size_b <= infinity {
                a.lt(b) == (key_a < key_b) && a.ge(b) == (key_a >= key_b)
            } else {
                !a.lt(b) && !a.ge(b)
            }
        }),
{
    Binary64::lemma_rank_orders(a, b);
    Binary64::lemma_nan_bits(a);
    Binary64::lemma_nan_bits(b);
}

impl Binary64 {
    proof fn lemma_nan_bits(x: Binary64)
        ensures
            x.is_nan() == ((if x.bits >= 0x8000_0000_0000_0000 {
                x.bits - 0x8000_0000_0000_0000
            } else {
                x.bits as int
            }) > 0x7ff0_0000_0000_0000),
    {
        let unit: int = 0x10_0000_0000_0000;
        let bits = x.bits as int;
        assert(bits == (bits / unit) * unit + bits % unit);
    }
}

} // verus!
