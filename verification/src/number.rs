//! Double-precision numbers, held as their IEEE 754 bit patterns.
//!
//! The ray tracer never computes with its numbers itself: it writes them into
//! expressions, and the query engine does the arithmetic. What the scenes do
//! decide by a number (is it positive, does it exceed one) is decided on the
//! pattern, and so is what they change in one (its sign).
use vstd::arithmetic::power2::lemma2_to64;
use vstd::arithmetic::power2::lemma2_to64_rest;
use vstd::arithmetic::power2::lemma_pow2_adds;
use vstd::arithmetic::power2::lemma_pow2_pos;
use vstd::arithmetic::power2::pow2;
use vstd::prelude::*;

verus! {

/// The sign bit.
pub const SIGN: u64 = 0x8000_0000_0000_0000;

/// The pattern of positive infinity; greater magnitudes are not numbers.
pub const INFINITY: u64 = 0x7ff0_0000_0000_0000;

/// The weight of the exponent's lowest bit in a pattern.
pub const EXPONENT_UNIT: u64 = 0x0010_0000_0000_0000;

/// The pattern of 0.
pub const ZERO: u64 = 0;

/// The pattern of 0.0001.
pub const TEN_THOUSANDTH: u64 = 0x3f1a_36e2_eb1c_432d;

/// The pattern of 0.001.
pub const THOUSANDTH: u64 = 0x3f50_624d_d2f1_a9fc;

/// The pattern of 0.5.
pub const HALF: u64 = 0x3fe0_0000_0000_0000;

/// The pattern of 1.
pub const ONE: u64 = 0x3ff0_0000_0000_0000;

/// The pattern of 2.
pub const TWO: u64 = 0x4000_0000_0000_0000;

/// The pattern of 5.
pub const FIVE: u64 = 0x4014_0000_0000_0000;

/// The pattern of 255, the brightest value of a colour channel.
pub const CHANNEL_MAX: u64 = 0x406f_e000_0000_0000;

/// A double-precision number.
#[derive(Clone, Copy, Debug, PartialEq, Eq, Structural)]
pub struct Number {
    pub bits: u64,
}

/// Whether the pattern stands for no number at all.
pub open spec fn is_nan(bits: u64) -> bool {
    INFINITY < bits < SIGN || SIGN + INFINITY < bits
}

/// The place of a pattern in the order of the numbers; both zeros are at 0.
pub open spec fn rank(bits: u64) -> int {
    if bits < SIGN {
        bits as int
    } else {
        SIGN - bits
    }
}

/// `a < b` as IEEE 754 compares two numbers: never true of what is not a number.
pub open spec fn less(a: u64, b: u64) -> bool {
    !is_nan(a) && !is_nan(b) && rank(a) < rank(b)
}

/// What is less than zero, and what is greater than zero or one, by the patterns.
pub proof fn law_less(bits: u64)
    ensures
        less(bits, ZERO) <==> 0x8000_0000_0000_0000 < bits <= 0xfff0_0000_0000_0000,
        less(ZERO, bits) <==> 0 < bits <= 0x7ff0_0000_0000_0000,
        less(ONE, bits) <==> 0x3ff0_0000_0000_0000 < bits <= 0x7ff0_0000_0000_0000,
{
}

/// The exponent field of a pattern.
pub open spec fn exponent(bits: u64) -> int {
    (bits / EXPONENT_UNIT) as int % 2048
}

/// The significand of a normal number, the leading one included: a number of 53 bits.
pub open spec fn significand(bits: u64) -> int {
    EXPONENT_UNIT + (bits % EXPONENT_UNIT)
}

/// Whether the pattern is that of the whole number `n`: for a positive `n` the
/// significand, times two to the power of `exponent - 1075`, is `n`.
pub open spec fn is_whole(bits: u64, n: nat) -> bool {
    if n == 0 {
        bits == ZERO
    } else {
        &&& bits < INFINITY
        &&& 1023 <= exponent(bits) <= 1075
        &&& significand(bits) == n * pow2((1075 - exponent(bits)) as nat)
    }
}

/// The pattern of the whole number `n`.
pub open spec fn whole_bits(n: nat) -> u64 {
    choose|bits: u64| is_whole(bits, n)
}

/// A whole number has one pattern only.
pub proof fn law_whole_is_unique(a: u64, b: u64, n: nat)
    requires
        is_whole(a, n),
        is_whole(b, n),
    ensures
        a == b,
{
    if n > 0 {
        let i = (1075 - exponent(a)) as nat;
        let j = (1075 - exponent(b)) as nat;
        if i < j {
            lemma_scale_is_tight(n, i, j);
        } else if j < i {
            lemma_scale_is_tight(n, j, i);
        }
    }
}

/// Every whole number of 32 bits has a pattern.
pub proof fn law_whole_has_pattern(n: nat)
    requires
        n <= u32::MAX,
    ensures
        is_whole(whole_bits(n), n),
{
    if n == 0 {
        assert(is_whole(ZERO, 0));
    } else {
        lemma2_to64();
        lemma2_to64_rest();
        assert(n * pow2(0) == n);
        lemma_pattern(n, 0);
    }
}

/// A number that is doubled often enough is long enough for a significand.
proof fn lemma_pattern(n: nat, k: nat)
    requires
        0 < n,
        k <= 52,
        n * pow2(k) < 2 * EXPONENT_UNIT,
    ensures
        exists|bits: u64| is_whole(bits, n),
    decreases 52 - k,
{
    lemma2_to64();
    lemma2_to64_rest();
    let scaled = n * pow2(k);
    if scaled < EXPONENT_UNIT {
        if k == 52 {
            assert(n * pow2(52) >= pow2(52)) by (nonlinear_arith)
                requires
                    n >= 1,
                    pow2(52) > 0,
            ;
        }
        lemma_pow2_adds(k, 1);
        assert(n * (pow2(k) * 2) == 2 * (n * pow2(k))) by (nonlinear_arith);
        lemma_pattern(n, k + 1);
    } else {
        let field: int = 1075 - k;
        let bits: u64 = ((field - 1) * EXPONENT_UNIT + scaled) as u64;
        assert(bits == field * EXPONENT_UNIT + (scaled - EXPONENT_UNIT));
        assert(bits / EXPONENT_UNIT == field);
        assert(bits % EXPONENT_UNIT == scaled - EXPONENT_UNIT);
        assert(is_whole(bits, n));
    }
}

/// A significand doubled is too long for a significand.
proof fn lemma_scale_is_tight(n: nat, i: nat, j: nat)
    requires
        i < j,
        EXPONENT_UNIT <= n * pow2(i),
    ensures
        2 * EXPONENT_UNIT <= n * pow2(j),
{
    let gap = (j - i) as nat;
    lemma_pow2_adds(i, gap);
    lemma_pow2_adds(1, (gap - 1) as nat);
    lemma_pow2_pos((gap - 1) as nat);
    lemma2_to64();
    assert(pow2(gap) >= 2) by (nonlinear_arith)
        requires
            pow2(gap) == 2 * pow2((gap - 1) as nat),
            pow2((gap - 1) as nat) >= 1,
    ;
    assert(n * pow2(j) >= 2 * EXPONENT_UNIT) by (nonlinear_arith)
        requires
            pow2(j) == pow2(i) * pow2(gap),
            pow2(gap) >= 2,
            n * pow2(i) >= EXPONENT_UNIT,
    ;
}

impl Number {
    /// The number with the given pattern.
    pub fn of(bits: u64) -> (number: Number)
        ensures
            number.bits == bits,
    {
        Number { bits }
    }

    /// The number `n`, exactly.
    pub fn whole(n: u32) -> (number: Number)
        ensures
            is_whole(number.bits, n as nat),
            number.bits == whole_bits(n as nat),
    {
        if n == 0 {
            proof {
                assert(is_whole(ZERO, 0));
                law_whole_is_unique(ZERO, whole_bits(0), 0);
            }
            return Number { bits: ZERO };
        }
        let mut scaled: u64 = n as u64;
        let mut field: u64 = 1075;
        proof {
            lemma2_to64();
            lemma2_to64_rest();
            assert(n * pow2(0) == n);
        }
        while scaled < EXPONENT_UNIT
            invariant
                0 < n,
                0 < scaled < 2 * EXPONENT_UNIT,
                1023 <= field <= 1075,
                scaled == n * pow2((1075 - field) as nat),
                scaled < EXPONENT_UNIT ==> field > 1023,
                field == 1075 || scaled < 2 * EXPONENT_UNIT,
            decreases field,
        {
            proof {
                let k = (1075 - field) as nat;
                lemma_pow2_adds(k, 1);
                lemma2_to64();
                assert(n * (pow2(k) * 2) == 2 * (n * pow2(k))) by (nonlinear_arith);
                if field == 1024 {
                    lemma2_to64_rest();
                    assert(n * pow2(52) >= pow2(52)) by (nonlinear_arith)
                        requires
                            n >= 1,
                            pow2(52) > 0,
                    ;
                }
            }
            scaled = scaled * 2;
            field = field - 1;
        }
        let bits: u64 = (field - 1) * EXPONENT_UNIT + scaled;
        assert(bits == field * EXPONENT_UNIT + (scaled - EXPONENT_UNIT));
        assert(bits / EXPONENT_UNIT == field);
        assert(bits % EXPONENT_UNIT == scaled - EXPONENT_UNIT);
        proof {
            law_whole_is_unique(bits, whole_bits(n as nat), n as nat);
        }
        Number { bits }
    }

    /// The pattern with the other sign.
    pub open spec fn opposite(self) -> u64 {
        if self.bits < SIGN {
            (self.bits + SIGN) as u64
        } else {
            (self.bits - SIGN) as u64
        }
    }

    /// The number of the other sign.
    pub fn negated(self) -> (number: Number)
        ensures
            number.bits == self.opposite(),
    {
        if self.bits < SIGN {
            Number { bits: self.bits + SIGN }
        } else {
            Number { bits: self.bits - SIGN }
        }
    }

    /// Whether the number is greater than 0.
    pub fn is_positive(self) -> (positive: bool)
        ensures
            positive == less(ZERO, self.bits),
    {
        0 < self.bits && self.bits <= INFINITY
    }

    /// The number of the range from 0 to 1 that is nearest; what is not a number stays.
    pub fn clamped_to_unit(self) -> (number: Number)
        ensures
            number.bits == (if less(self.bits, ZERO) {
                ZERO
            } else if less(ONE, self.bits) {
                ONE
            } else {
                self.bits
            }),
    {
        if SIGN < self.bits && self.bits <= SIGN + INFINITY {
            Number { bits: ZERO }
        } else if ONE < self.bits && self.bits <= INFINITY {
            Number { bits: ONE }
        } else {
            self
        }
    }
}

} // verus!
