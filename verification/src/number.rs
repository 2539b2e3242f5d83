use vstd::arithmetic::div_mod::lemma_div_denominator;
use vstd::arithmetic::mul::lemma_mul_is_associative;
use vstd::arithmetic::power::lemma_pow0;
use vstd::arithmetic::power::lemma_pow_adds;
use vstd::arithmetic::power::lemma_pow_positive;
use vstd::arithmetic::power::pow;
use vstd::arithmetic::power2::lemma2_to64;
use vstd::arithmetic::power2::lemma_pow2_strictly_increases;
use vstd::arithmetic::power2::pow2;
use vstd::bits::lemma_u64_shr_is_div;
use vstd::prelude::*;

verus! {

/// A floating-point number in the form in which a wire format carries it.
///
/// The library does no floating-point arithmetic: the binary format's numbers
/// travel as their IEEE 754 bit patterns, the text format's as the decimal
/// literal that was read. What a destination needs of such a number (its
/// integral part, whether it is zero) is computed on these forms.
#[derive(Debug, Clone, Copy, PartialEq, Eq, Structural)]
pub enum Float {
    /// The bit pattern of an IEEE 754 binary32 number.
    Single(u32),
    /// The bit pattern of an IEEE 754 binary64 number.
    Double(u64),
    /// The number `mantissa * 10^exponent`, negated if `negative`.
    Decimal { negative: bool, mantissa: u64, exponent: i16 },
}

/// The integral part of `mantissa * 2^exponent`.
pub open spec fn binary_scaled(mantissa: nat, exponent: int) -> nat {
    if exponent >= 0 {
        mantissa * pow2(exponent as nat)
    } else {
        mantissa / pow2((-exponent) as nat)
    }
}

/// The integral part of `mantissa * 10^exponent`.
pub open spec fn decimal_scaled(mantissa: nat, exponent: int) -> nat {
    if exponent >= 0 {
        (mantissa * pow(10, exponent as nat)) as nat
    } else {
        (mantissa as int / pow(10, (-exponent) as nat)) as nat
    }
}

/// Whether `mantissa * 2^exponent` is an integer.
pub open spec fn binary_whole(mantissa: nat, exponent: int) -> bool {
    exponent >= 0 || mantissa % pow2((-exponent) as nat) == 0
}

/// Whether `mantissa * 10^exponent` is an integer.
pub open spec fn decimal_whole(mantissa: nat, exponent: int) -> bool {
    exponent >= 0 || mantissa as int % pow(10, (-exponent) as nat) == 0
}

/// The greatest finite number of single precision: `(2^24 - 1) * 2^104`.
pub const SINGLE_MAX: u128 = 0xffff_ff00_0000_0000_0000_0000_0000_0000;

impl Float {
    /// Whether the sign is set.
    pub open spec fn is_negative(self) -> bool {
        match self {
            Float::Single(bits) => bits >= 0x8000_0000u32,
            Float::Double(bits) => bits >= 0x8000_0000_0000_0000u64,
            Float::Decimal { negative, .. } => negative,
        }
    }

    /// Whether the number is finite: neither an infinity nor a NaN.
    pub open spec fn is_finite(self) -> bool {
        match self {
            Float::Single(bits) => (bits / 0x80_0000u32) % 0x100 != 0xff,
            Float::Double(bits) => (bits / 0x10_0000_0000_0000u64) % 0x800 != 0x7ff,
            Float::Decimal { .. } => true,
        }
    }

    /// The magnitude of a finite number with its fraction cut off: the
    /// absolute value, rounded toward zero.
    pub open spec fn magnitude(self) -> nat {
        match self {
            Float::Single(bits) => {
                let biased = ((bits / 0x80_0000u32) % 0x100) as int;
                let fraction = (bits % 0x80_0000u32) as nat;
                if biased == 0 {
                    0
                } else {
                    binary_scaled(0x80_0000 + fraction, biased - 150)
                }
            },
            Float::Double(bits) => {
                let biased = ((bits / 0x10_0000_0000_0000u64) % 0x800) as int;
                let fraction = (bits % 0x10_0000_0000_0000u64) as nat;
                if biased == 0 {
                    0
                } else {
                    binary_scaled(0x10_0000_0000_0000 + fraction, biased - 1075)
                }
            },
            Float::Decimal { mantissa, exponent, .. } => decimal_scaled(
                mantissa as nat,
                exponent as int,
            ),
        }
    }

    /// The number with its fraction cut off (rounded toward zero), where it is
    /// finite.
    pub open spec fn integral(self) -> Option<int> {
        if !self.is_finite() {
            None
        } else if self.is_negative() {
            Some(-(self.magnitude() as int))
        } else {
            Some(self.magnitude() as int)
        }
    }

    /// Whether a finite number is an integer.
    pub open spec fn is_whole(self) -> bool {
        match self {
            Float::Single(bits) => {
                let biased = ((bits / 0x80_0000u32) % 0x100) as int;
                let fraction = (bits % 0x80_0000u32) as nat;
                if biased == 0 {
                    fraction == 0
                } else {
                    binary_whole(0x80_0000 + fraction, biased - 150)
                }
            },
            Float::Double(bits) => {
                let biased = ((bits / 0x10_0000_0000_0000u64) % 0x800) as int;
                let fraction = (bits % 0x10_0000_0000_0000u64) as nat;
                if biased == 0 {
                    fraction == 0
                } else {
                    binary_whole(0x10_0000_0000_0000 + fraction, biased - 1075)
                }
            },
            Float::Decimal { mantissa, exponent, .. } => decimal_whole(
                mantissa as nat,
                exponent as int,
            ),
        }
    }

    /// The greatest integer that is not above the number, where it is
    /// finite.
    pub open spec fn floor(self) -> Option<int> {
        match self.integral() {
            Some(cut) => Some(
                if self.is_negative() && !self.is_whole() {
                    cut - 1
                } else {
                    cut
                },
            ),
            None => None,
        }
    }

    /// The least integer that is not below the number, where it is finite.
    pub open spec fn ceiling(self) -> Option<int> {
        match self.integral() {
            Some(cut) => Some(
                if !self.is_negative() && !self.is_whole() {
                    cut + 1
                } else {
                    cut
                },
            ),
            None => None,
        }
    }

    /// Whether single precision's range holds the number: it is an infinity
    /// or a NaN, or its magnitude with the fraction cut off is at most the
    /// greatest finite number of single precision.
    pub open spec fn single_holds(self) -> bool {
        !self.is_finite() || self.magnitude() <= SINGLE_MAX
    }

    /// The number in the narrowest binary form that holds it exactly: one
    /// in double precision that single precision holds exactly in single
    /// precision, any other as it is.
    pub open spec fn narrowed(self) -> Float {
        match self {
            Float::Double(bits) => match single_of(bits) {
                Some(single) => Float::Single(single),
                None => self,
            },
            _ => self,
        }
    }

    /// Whether two forms stand for the same number: they are the same
    /// form; or both are a zero of either sign; or one is the
    /// single-precision pattern of the number that the other stands for in
    /// double precision; or both are integers of one sign and one
    /// magnitude.
    pub open spec fn same_number(self, other: Float) -> bool {
        ||| self == other
        ||| (!self.is_nonzero() && !other.is_nonzero())
        ||| self.narrowed() == other
        ||| other.narrowed() == self
        ||| {
            &&& self.is_finite() && other.is_finite()
            &&& self.is_whole() && other.is_whole()
            &&& self.is_negative() == other.is_negative()
            &&& self.magnitude() == other.magnitude()
        }
    }

    /// Whether the number differs from zero. A NaN does.
    pub open spec fn is_nonzero(self) -> bool {
        match self {
            Float::Single(bits) => bits % 0x8000_0000u32 != 0,
            Float::Double(bits) => bits % 0x8000_0000_0000_0000u64 != 0,
            Float::Decimal { mantissa, .. } => mantissa != 0,
        }
    }

    /// The number of an integer, exactly.
    pub open spec fn of_integer(value: int) -> Float
        recommends
            -0x1_0000_0000_0000_0000 < value < 0x1_0000_0000_0000_0000,
    {
        if value < 0 {
            Float::Decimal { negative: true, mantissa: (-value) as u64, exponent: 0 }
        } else {
            Float::Decimal { negative: false, mantissa: value as u64, exponent: 0 }
        }
    }

    /// The number of a signed integer, exactly.
    pub fn from_signed(value: i64) -> (r: Float)
        ensures
            r == Float::of_integer(value as int),
    {
        if value < 0 {
            Float::Decimal { negative: true, mantissa: (-(value as i128)) as u64, exponent: 0 }
        } else {
            Float::Decimal { negative: false, mantissa: value as u64, exponent: 0 }
        }
    }

    /// The number of an unsigned integer, exactly.
    pub fn from_unsigned(value: u64) -> (r: Float)
        ensures
            r == Float::of_integer(value as int),
    {
        Float::Decimal { negative: false, mantissa: value, exponent: 0 }
    }

    /// Whether the number differs from zero.
    pub fn nonzero(&self) -> (r: bool)
        ensures
            r == self.is_nonzero(),
    {
        match self {
            Float::Single(bits) => *bits % 0x8000_0000u32 != 0,
            Float::Double(bits) => *bits % 0x8000_0000_0000_0000u64 != 0,
            Float::Decimal { mantissa, .. } => *mantissa != 0,
        }
    }

    /// Whether the number is an integer. Of a number that is not finite
    /// the answer says nothing.
    pub fn whole(&self) -> (r: bool)
        ensures
            r == self.is_whole(),
    {
        match self {
            Float::Single(bits) => {
                let biased: u32 = (*bits / 0x80_0000u32) % 0x100;
                let fraction: u32 = *bits % 0x80_0000u32;
                if biased == 0 {
                    fraction == 0
                } else {
                    whole_binary(0x80_0000u64 + fraction as u64, biased, 150)
                }
            },
            Float::Double(bits) => {
                let biased: u64 = (*bits / 0x10_0000_0000_0000u64) % 0x800;
                let fraction: u64 = *bits % 0x10_0000_0000_0000u64;
                if biased == 0 {
                    fraction == 0
                } else {
                    whole_binary(0x10_0000_0000_0000u64 + fraction, biased as u32, 1075)
                }
            },
            Float::Decimal { mantissa, exponent, .. } => whole_decimal(*mantissa, *exponent),
        }
    }

    /// Whether single precision's range holds the number.
    pub fn fits_single(&self) -> (fits: bool)
        ensures
            fits == self.single_holds(),
    {
        match self {
            Float::Single(bits) => {
                proof {
                    lemma_single_holds(*bits);
                }
                true
            },
            Float::Double(bits) => {
                let biased: u64 = (*bits / 0x10_0000_0000_0000u64) % 0x800;
                let fraction: u64 = *bits % 0x10_0000_0000_0000u64;
                let ghost mantissa = (0x10_0000_0000_0000 + fraction) as nat;
                proof {
                    lemma_pow2_104();
                    if biased != 0 && biased < 1150 {
                        lemma_binary_scaled_bound(mantissa, biased - 1075, 74);
                    } else if biased == 1150 {
                    } else if biased != 0x7ff && biased != 0 {
                        lemma_binary_scale_grows(mantissa, 76, (biased - 1075) as nat);
                    }
                }
                biased == 0x7ff || biased < 1150 || (biased == 1150 && fraction
                    <= 0xf_ffff_e000_0000)
            },
            Float::Decimal { mantissa, exponent, .. } => fits_decimal(*mantissa, *exponent),
        }
    }

    /// Cuts the fraction off. Returns the sign and the magnitude of the
    /// integral part, or `None` where the number is not finite or its
    /// magnitude is beyond 64 bits.
    pub fn truncate(&self) -> (r: Option<(bool, u64)>)
        ensures
            r is Some <==> self.is_finite() && self.magnitude() <= u64::MAX,
            r matches Some((negative, magnitude)) ==> negative == self.is_negative() && magnitude
                == self.magnitude(),
    {
        match self {
            Float::Single(bits) => {
                let biased: u32 = (*bits / 0x80_0000u32) % 0x100;
                let fraction: u32 = *bits % 0x80_0000u32;
                let negative = *bits >= 0x8000_0000u32;
                if biased == 0xff {
                    None
                } else if biased == 0 {
                    Some((negative, 0))
                } else {
                    Some((negative, scale_binary(0x80_0000u64 + fraction as u64, biased, 150)?))
                }
            },
            Float::Double(bits) => {
                let biased: u64 = (*bits / 0x10_0000_0000_0000u64) % 0x800;
                let fraction: u64 = *bits % 0x10_0000_0000_0000u64;
                let negative = *bits >= 0x8000_0000_0000_0000u64;
                if biased == 0x7ff {
                    None
                } else if biased == 0 {
                    Some((negative, 0))
                } else {
                    Some(
                        (
                            negative,
                            scale_binary(0x10_0000_0000_0000u64 + fraction, biased as u32, 1075)?,
                        ),
                    )
                }
            },
            Float::Decimal { negative, mantissa, exponent } => {
                Some((*negative, scale_decimal(*mantissa, *exponent)?))
            },
        }
    }
}

/// A floating-point number bound for a single-precision destination: one
/// that single precision's range holds.
#[derive(Debug, Clone, Copy, PartialEq, Eq, Structural)]
pub struct SingleFloat {
    pub value: Float,
}

impl SingleFloat {
    /// Whether single precision's range holds the number.
    pub open spec fn well_formed(self) -> bool {
        self.value.single_holds()
    }

    /// The number as one bound for single precision, where its range
    /// holds the number.
    pub fn new(value: Float) -> (single: Option<Self>)
        ensures
            match single {
                Some(single) => value.single_holds() && single.value == value,
                None => !value.single_holds(),
            },
    {
        if value.fits_single() {
            Some(SingleFloat { value })
        } else {
            None
        }
    }
}

/// The single-precision pattern of the number that a double-precision
/// pattern stands for, where single precision holds that number exactly.
///
/// An infinity and a zero keep their sign. A NaN has none, since it is not
/// even equal to itself. A finite number has one where its exponent is that
/// of a normal single-precision number and the 29 low bits of its fraction
/// are zero, or where it lies below the normal single-precision numbers
/// and is a multiple of the least of them that is not zero.
pub open spec fn single_of(double: u64) -> Option<u32> {
    let sign: nat = if double >= 0x8000_0000_0000_0000u64 {
        0x8000_0000
    } else {
        0
    };
    let biased = ((double / 0x10_0000_0000_0000u64) % 0x800) as nat;
    let fraction = (double % 0x10_0000_0000_0000u64) as nat;
    if biased == 0x7ff {
        if fraction == 0 {
            Some((sign + 0x7f80_0000) as u32)
        } else {
            None
        }
    } else if biased == 0 {
        if fraction == 0 {
            Some(sign as u32)
        } else {
            None
        }
    } else if 897 <= biased <= 1150 {
        if fraction % 0x2000_0000 == 0 {
            Some((sign + (biased - 896) * 0x80_0000 + fraction / 0x2000_0000) as u32)
        } else {
            None
        }
    } else if 874 <= biased <= 896 {
        let step = pow2((926 - biased) as nat);
        let significand = 0x10_0000_0000_0000 + fraction;
        if significand % step == 0 {
            Some((sign + significand / step) as u32)
        } else {
            None
        }
    } else {
        None
    }
}

/// The single-precision pattern of the number that a double-precision
/// pattern stands for, where there is one.
pub fn narrow(double: u64) -> (single: Option<u32>)
    ensures
        single == single_of(double),
{
    let sign: u32 = if double >= 0x8000_0000_0000_0000u64 {
        0x8000_0000
    } else {
        0
    };
    let biased: u64 = (double / 0x10_0000_0000_0000u64) % 0x800;
    let fraction: u64 = double % 0x10_0000_0000_0000u64;
    if biased == 0x7ff {
        if fraction == 0 {
            Some(sign + 0x7f80_0000)
        } else {
            None
        }
    } else if biased == 0 {
        if fraction == 0 {
            Some(sign)
        } else {
            None
        }
    } else if biased >= 897 && biased <= 1150 {
        if fraction % 0x2000_0000 == 0 {
            Some(sign + ((biased - 896) * 0x80_0000 + fraction / 0x2000_0000) as u32)
        } else {
            None
        }
    } else if biased >= 874 && biased <= 896 {
        let shift: u64 = 926 - biased;
        let significand: u64 = 0x10_0000_0000_0000 + fraction;
        let quotient: u64 = significand >> shift;
        proof {
            lemma2_to64();
            vstd::arithmetic::power2::lemma2_to64_rest();
            lemma_u64_shr_is_div(significand, shift);
            let step = pow2(shift as nat);
            vstd::arithmetic::power2::lemma_pow2_pos(shift as nat);
            vstd::arithmetic::div_mod::lemma_fundamental_div_mod(significand as int, step as int);
            if shift > 30 {
                lemma_pow2_strictly_increases(30, shift as nat);
            }
            assert(step * (significand as int / step as int) <= significand) by (nonlinear_arith)
                requires
                    significand == step * (significand as int / step as int) + (significand as int
                        % step as int),
                    0 <= significand as int % step as int,
            ;
            assert(quotient * step == step * quotient) by (nonlinear_arith);
            vstd::bits::lemma_u64_shl_is_mul(quotient, shift);
            assert(quotient < 0x80_0000) by (nonlinear_arith)
                requires
                    quotient * step <= significand,
                    significand < 0x20_0000_0000_0000,
                    step >= 0x4000_0000,
            ;
        }
        if (quotient << shift) == significand {
            Some(sign + quotient as u32)
        } else {
            None
        }
    } else {
        None
    }
}

/// Scaling by a larger power of two gives no less.
proof fn lemma_binary_scale_grows(mantissa: nat, low: nat, high: nat)
    requires
        low <= high,
    ensures
        mantissa * pow2(low) <= mantissa * pow2(high),
{
    if low < high {
        lemma_pow2_strictly_increases(low, high);
    }
    assert(mantissa * pow2(low) <= mantissa * pow2(high)) by (nonlinear_arith)
        requires
            pow2(low) <= pow2(high),
    ;
}

/// Scaling by a larger power of ten gives no less.
proof fn lemma_decimal_scale_grows(mantissa: nat, low: nat, high: nat)
    requires
        low <= high,
    ensures
        mantissa * pow(10, low) <= mantissa * pow(10, high),
{
    vstd::arithmetic::power::lemma_pow_increases(10, low, high);
    assert(mantissa * pow(10, low) <= mantissa * pow(10, high)) by (nonlinear_arith)
        requires
            pow(10, low) <= pow(10, high),
    ;
}

/// One more factor of ten.
proof fn lemma_pow10_step(done: nat)
    ensures
        pow(10, done + 1) == pow(10, done) * 10,
        pow(10, done) > 0,
{
    lemma_pow_adds(10, done, 1);
    vstd::arithmetic::power::lemma_pow1(10);
    lemma_pow_positive(10, done);
}

/// Single precision's range holds every number of single precision.
pub proof fn lemma_single_holds(bits: u32)
    ensures
        Float::Single(bits).single_holds(),
{
    let biased = ((bits / 0x80_0000u32) % 0x100) as int;
    let fraction = (bits % 0x80_0000u32) as nat;
    if biased != 0 && biased != 0xff {
        lemma_binary_scaled_bound(0x80_0000 + fraction, biased - 150, 104);
        lemma_pow2_104();
    }
}

/// A finite number whose integral part reaches the greatest number of
/// single precision has no fraction: to compare the integral part with that
/// number is to compare the number itself.
pub proof fn lemma_whole_at_bound(value: Float)
    requires
        value.is_finite(),
        value.magnitude() >= SINGLE_MAX,
    ensures
        value.is_whole(),
{
    match value {
        Float::Single(bits) => {
            let biased = ((bits / 0x80_0000u32) % 0x100) as int;
            let fraction = (bits % 0x80_0000u32) as nat;
            if biased != 0 && biased < 150 {
                lemma_binary_scaled_bound(0x80_0000 + fraction, biased - 150, 0);
                lemma2_to64();
            }
        },
        Float::Double(bits) => {
            let biased = ((bits / 0x10_0000_0000_0000u64) % 0x800) as int;
            let fraction = (bits % 0x10_0000_0000_0000u64) as nat;
            if biased != 0 && biased < 1075 {
                lemma_binary_scaled_bound(0x10_0000_0000_0000 + fraction, biased - 1075, 0);
                lemma2_to64();
            }
        },
        Float::Decimal { mantissa, exponent, .. } => {
            if exponent < 0 {
                lemma_pow_positive(10, (-exponent) as nat);
                vstd::arithmetic::div_mod::lemma_div_nonincreasing(
                    mantissa as int,
                    pow(10, (-exponent) as nat),
                );
            }
        },
    }
}

/// The powers of two that bound single precision.
proof fn lemma_pow2_104()
    ensures
        pow2(74) == 0x400_0000_0000_0000_0000,
        pow2(75) == 0x800_0000_0000_0000_0000,
        pow2(76) == 0x1000_0000_0000_0000_0000,
        pow2(104) == 0x100_0000_0000_0000_0000_0000_0000,
{
    lemma2_to64();
    vstd::arithmetic::power2::lemma2_to64_rest();
    vstd::arithmetic::power2::lemma_pow2_adds(64, 10);
    vstd::arithmetic::power2::lemma_pow2_adds(64, 11);
    vstd::arithmetic::power2::lemma_pow2_adds(64, 12);
    vstd::arithmetic::power2::lemma_pow2_adds(64, 40);
}

/// A number scaled by a power of two is no more than the number scaled
/// by a greater power that is not negative.
proof fn lemma_binary_scaled_bound(mantissa: nat, exponent: int, high: nat)
    requires
        exponent <= high,
    ensures
        binary_scaled(mantissa, exponent) <= mantissa * pow2(high),
{
    vstd::arithmetic::power2::lemma_pow2_pos(high);
    if exponent >= 0 {
        lemma_binary_scale_grows(mantissa, exponent as nat, high);
    } else {
        vstd::arithmetic::power2::lemma_pow2_pos((-exponent) as nat);
        vstd::arithmetic::div_mod::lemma_div_nonincreasing(
            mantissa as int,
            pow2((-exponent) as nat) as int,
        );
        assert(mantissa <= mantissa * pow2(high)) by (nonlinear_arith)
            requires
                pow2(high) > 0,
        ;
    }
}

/// Whether `mantissa * 2^(biased - bias)` is an integer.
fn whole_binary(mantissa: u64, biased: u32, bias: u32) -> (r: bool)
    requires
        0 < mantissa < 0x20_0000_0000_0000,
        biased < 0x800,
        bias < 0x800,
    ensures
        r == binary_whole(mantissa as nat, biased - bias),
{
    if biased >= bias {
        true
    } else {
        let down: u32 = bias - biased;
        proof {
            lemma2_to64();
        }
        if down >= 64 {
            proof {
                if 64 < down {
                    lemma_pow2_strictly_increases(64, down as nat);
                }
                vstd::arithmetic::div_mod::lemma_small_mod(mantissa as nat, pow2(down as nat));
            }
            false
        } else {
            proof {
                lemma_pow2_strictly_increases(down as nat, 64);
                vstd::arithmetic::power2::lemma_pow2_pos(down as nat);
                assert(1 * pow2(down as nat) == pow2(down as nat)) by (nonlinear_arith);
                vstd::bits::lemma_u64_shl_is_mul(1, down as u64);
                assert(1u64 << (down as u64) == pow2(down as nat));
            }
            mantissa % (1u64 << (down as u64)) == 0
        }
    }
}

/// A number that some power of ten does not divide is divided by no
/// greater power of ten.
proof fn lemma_fraction_stays(mantissa: nat, low: nat, high: nat)
    requires
        low <= high,
        mantissa as int % pow(10, low) != 0,
    ensures
        mantissa as int % pow(10, high) != 0,
{
    let rest = (high - low) as nat;
    lemma_pow_positive(10, low);
    lemma_pow_positive(10, rest);
    lemma_pow_adds(10, low, rest);
    vstd::arithmetic::div_mod::lemma_mod_breakdown(mantissa as int, pow(10, low), pow(10, rest));
    let upper = (mantissa as int / pow(10, low)) % pow(10, rest);
    assert(0 <= upper) by {
        vstd::arithmetic::div_mod::lemma_mod_pos_bound(
            mantissa as int / pow(10, low),
            pow(10, rest),
        );
    }
    assert(0 < mantissa as int % pow(10, low)) by {
        vstd::arithmetic::div_mod::lemma_mod_pos_bound(mantissa as int, pow(10, low));
    }
    assert(pow(10, low) * upper >= 0) by (nonlinear_arith)
        requires
            pow(10, low) > 0,
            upper >= 0,
    ;
}

/// Whether `mantissa * 10^exponent` is an integer.
fn whole_decimal(mantissa: u64, exponent: i16) -> (r: bool)
    ensures
        r == decimal_whole(mantissa as nat, exponent as int),
{
    if exponent >= 0 {
        return true;
    }
    let mut scaled: u64 = mantissa;
    let mut done: i16 = 0;
    proof {
        lemma_pow0(10);
        assert(mantissa as int / 1 == mantissa);
        assert(mantissa as int % 1 == 0);
    }
    while done > exponent
        invariant
            exponent <= done <= 0,
            scaled == mantissa as int / pow(10, (-done) as nat),
            mantissa as int % pow(10, (-done) as nat) == 0,
        decreases done - exponent,
    {
        proof {
            let low = (-done) as nat;
            lemma_pow10_step(low);
            lemma_div_denominator(mantissa as int, pow(10, low), 10);
            vstd::arithmetic::div_mod::lemma_mod_breakdown(mantissa as int, pow(10, low), 10);
            assert((-(done - 1)) as nat == low + 1);
            assert(pow(10, low) * (scaled % 10) == 0 <==> scaled % 10 == 0) by (nonlinear_arith)
                requires
                    pow(10, low) > 0,
            ;
        }
        if scaled % 10 != 0 {
            proof {
                lemma_fraction_stays(mantissa as nat, ((-done) as nat + 1) as nat, (-exponent) as nat);
            }
            return false;
        }
        scaled = scaled / 10;
        done = done - 1;
    }
    true
}

/// Whether `mantissa * 10^exponent` is at most the greatest finite number
/// of single precision.
fn fits_decimal(mantissa: u64, exponent: i16) -> (fits: bool)
    ensures
        fits == (decimal_scaled(mantissa as nat, exponent as int) <= SINGLE_MAX),
{
    proof {
        lemma_pow0(10);
    }
    if exponent <= 0 {
        proof {
            if exponent < 0 {
                lemma_pow_positive(10, (-exponent) as nat);
                vstd::arithmetic::div_mod::lemma_div_nonincreasing(
                    mantissa as int,
                    pow(10, (-exponent) as nat),
                );
                vstd::arithmetic::div_mod::lemma_div_pos_is_pos(
                    mantissa as int,
                    pow(10, (-exponent) as nat),
                );
            } else {
                assert(mantissa * 1 == mantissa) by (nonlinear_arith);
            }
        }
        return true;
    }
    if mantissa == 0 {
        proof {
            assert(0 * pow(10, exponent as nat) == 0) by (nonlinear_arith);
        }
        return true;
    }
    let mut power: u128 = 1;
    let mut done: i16 = 0;
    while done < exponent
        invariant
            0 <= done <= exponent,
            mantissa > 0,
            power > 0,
            power == pow(10, done as nat),
        decreases exponent - done,
    {
        proof {
            lemma_pow10_step(done as nat);
        }
        if power > SINGLE_MAX / 10 {
            proof {
                lemma_decimal_scale_grows(mantissa as nat, (done + 1) as nat, exponent as nat);
                assert(mantissa * pow(10, (done + 1) as nat) >= pow(10, (done + 1) as nat))
                    by (nonlinear_arith)
                    requires
                        mantissa >= 1,
                        pow(10, (done + 1) as nat) >= 0,
                ;
            }
            return false;
        }
        power = power * 10;
        done = done + 1;
    }
    proof {
        let wide = mantissa as int;
        let scale = power as int;
        assert(wide <= (SINGLE_MAX as int) / scale <==> wide * scale <= SINGLE_MAX as int)
            by (nonlinear_arith)
            requires
                scale > 0,
                0 <= wide,
        ;
    }
    mantissa as u128 <= SINGLE_MAX / power
}

/// The integral part of `mantissa * 2^(biased - bias)`, where 64 bits hold it.
fn scale_binary(mantissa: u64, biased: u32, bias: u32) -> (r: Option<u64>)
    requires
        0 < mantissa < 0x20_0000_0000_0000,
        biased < 0x800,
        bias < 0x800,
    ensures
        r is Some <==> binary_scaled(mantissa as nat, biased - bias) <= u64::MAX,
        r matches Some(m) ==> m == binary_scaled(mantissa as nat, biased - bias),
{
    proof {
        lemma2_to64();
    }
    if biased >= bias {
        let up: u32 = biased - bias;
        if up >= 64 {
            proof {
                lemma_binary_scale_grows(mantissa as nat, 64, up as nat);
                assert(mantissa * pow2(64) > u64::MAX) by (nonlinear_arith)
                    requires
                        mantissa > 0,
                        pow2(64) == 0x1_0000_0000_0000_0000,
                ;
            }
            return None;
        }
        let mut scaled: u64 = mantissa;
        let mut done: u32 = 0;
        proof {
            assert(mantissa * 1 == mantissa) by (nonlinear_arith);
        }
        while done < up
            invariant
                done <= up < 64,
                up == biased - bias,
                scaled == mantissa * pow2(done as nat),
            decreases up - done,
        {
            proof {
                vstd::arithmetic::power2::lemma_pow2_unfold((done + 1) as nat);
                lemma_mul_is_associative(mantissa as int, 2, pow2(done as nat) as int);
                assert(mantissa * (2 * pow2(done as nat)) == 2 * (mantissa * pow2(done as nat)))
                    by (nonlinear_arith);
                assert(mantissa * pow2((done + 1) as nat) == scaled * 2);
            }
            if scaled > u64::MAX / 2 {
                proof {
                    lemma_binary_scale_grows(mantissa as nat, (done + 1) as nat, up as nat);
                }
                return None;
            }
            scaled = scaled * 2;
            done = done + 1;
        }
        Some(scaled)
    } else {
        let down: u32 = bias - biased;
        if down >= 64 {
            proof {
                if 64 < down {
                    lemma_pow2_strictly_increases(64, down as nat);
                }
                vstd::arithmetic::div_mod::lemma_basic_div(
                    mantissa as int,
                    pow2(down as nat) as int,
                );
            }
            Some(0)
        } else {
            proof {
                lemma_u64_shr_is_div(mantissa, down as u64);
            }
            Some(mantissa >> (down as u64))
        }
    }
}

/// The integral part of `mantissa * 10^exponent`, where 64 bits hold it.
fn scale_decimal(mantissa: u64, exponent: i16) -> (r: Option<u64>)
    ensures
        r is Some <==> decimal_scaled(mantissa as nat, exponent as int) <= u64::MAX,
        r matches Some(m) ==> m == decimal_scaled(mantissa as nat, exponent as int),
{
    proof {
        lemma_pow0(10);
    }
    if mantissa == 0 {
        proof {
            if exponent >= 0 {
                assert(0 * pow(10, exponent as nat) == 0) by (nonlinear_arith);
            } else {
                lemma_pow_positive(10, (-exponent) as nat);
            }
        }
        return Some(0);
    }
    if exponent >= 0 {
        let mut scaled: u64 = mantissa;
        let mut done: i16 = 0;
        proof {
            assert(mantissa * 1 == mantissa) by (nonlinear_arith);
        }
        while done < exponent
            invariant
                0 <= done <= exponent,
                scaled == mantissa * pow(10, done as nat),
            decreases exponent - done,
        {
            proof {
                lemma_pow10_step(done as nat);
                assert(mantissa * (pow(10, done as nat) * 10) == (mantissa * pow(10, done as nat))
                    * 10) by (nonlinear_arith);
                assert(mantissa * pow(10, (done + 1) as nat) == scaled * 10);
            }
            if scaled > u64::MAX / 10 {
                proof {
                    lemma_decimal_scale_grows(mantissa as nat, (done + 1) as nat, exponent as nat);
                }
                return None;
            }
            scaled = scaled * 10;
            done = done + 1;
        }
        Some(scaled)
    } else {
        let mut scaled: u64 = mantissa;
        let mut done: i16 = 0;
        proof {
            assert(pow(10, 0) == 1);
            assert(mantissa as int / 1 == mantissa);
        }
        while done > exponent && scaled > 0
            invariant
                exponent <= done <= 0,
                scaled == mantissa as int / pow(10, (-done) as nat),
            decreases done - exponent,
        {
            proof {
                lemma_pow10_step((-done) as nat);
                lemma_div_denominator(mantissa as int, pow(10, (-done) as nat), 10);
                assert((-(done - 1)) as nat == (-done) as nat + 1);
            }
            scaled = scaled / 10;
            done = done - 1;
        }
        proof {
            if done > exponent {
                let rest = (done - exponent) as nat;
                lemma_pow_positive(10, (-done) as nat);
                lemma_pow_positive(10, rest);
                lemma_pow_adds(10, (-done) as nat, rest);
                lemma_div_denominator(mantissa as int, pow(10, (-done) as nat), pow(10, rest));
                vstd::arithmetic::div_mod::lemma_basic_div(0int, pow(10, rest));
                assert((-done) as nat + rest == (-exponent) as nat);
            }
            lemma_pow_positive(10, (-exponent) as nat);
        }
        Some(scaled)
    }
}

} // verus!
