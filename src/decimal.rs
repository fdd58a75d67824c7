//! Fixed-point decimal numbers with twelve fractional digits.
use vstd::prelude::*;

verus! {

/// Number of units in one whole: values are held as integer multiples of 10^-12.
pub const UNITS_PER_ONE: i128 = 1_000_000_000_000;

/// The number of fractional digits that a `Decimal` keeps.
pub const FRACTION_DIGITS: u32 = 12;

pub open spec fn pow10(n: nat) -> int
    decreases n,
{
    if n == 0 {
        1
    } else {
        10 * pow10((n - 1) as nat)
    }
}

pub proof fn lemma_pow10_positive(n: nat)
    ensures
        pow10(n) >= 1,
    decreases n,
{
    if n > 0 {
        lemma_pow10_positive((n - 1) as nat);
    }
}

pub proof fn lemma_pow10_monotone(a: nat, b: nat)
    requires
        a <= b,
    ensures
        pow10(a) <= pow10(b),
    decreases b,
{
    if a < b {
        lemma_pow10_monotone(a, (b - 1) as nat);
        lemma_pow10_positive((b - 1) as nat);
    }
}

proof fn lemma_pow10_16()
    ensures
        pow10(16) == 10_000_000_000_000_000,
{
    reveal_with_fuel(pow10, 17);
}

/// 10^n as a machine integer.
fn pow10_i128(n: u32) -> (r: i128)
    requires
        n <= 16,
    ensures
        r as int == pow10(n as nat),
{
    let mut r: i128 = 1;
    let mut i: u32 = 0;
    while i < n
        invariant
            i <= n <= 16,
            r as int == pow10(i as nat),
        decreases n - i,
    {
        proof {
            lemma_pow10_monotone((i + 1) as nat, 16);
            assert(pow10((i + 1) as nat) == 10 * pow10(i as nat));
            lemma_pow10_16();
            lemma_pow10_positive(i as nat);
        }
        r = r * 10;
        i = i + 1;
    }
    r
}

/// A signed decimal number, held exactly as a count of 10^-12 units.
#[derive(Clone, Copy, Debug, PartialEq, Eq, Structural)]
pub struct Decimal {
    pub units: i128,
}

/// The units of `mantissa * 10^-scale`, when that is a whole number of units.
pub open spec fn parts_units(mantissa: int, scale: nat) -> int {
    if scale <= 12 {
        mantissa * pow10((12 - scale) as nat)
    } else {
        mantissa / pow10((scale - 12) as nat)
    }
}

/// `mantissa * 10^-scale` is a whole number of units that fits the representation.
pub open spec fn parts_representable(mantissa: int, scale: nat) -> bool {
    &&& scale > 12 ==> mantissa % pow10((scale - 12) as nat) == 0
    &&& i128::MIN <= parts_units(mantissa, scale) <= i128::MAX
}

/// `a / b` rounded toward negative infinity.
pub fn floor_div_i128(a: i128, b: i128) -> (r: i128)
    requires
        b > 0,
    ensures
        r as int == a as int / b as int,
{
    if a >= 0 {
        a / b
    } else {
        // a == -(n + 1) with n >= 0
        let n = -(a + 1);
        let q = n / b;
        proof {
            let bi = b as int;
            let qi = q as int;
            let ri = (n % b) as int;
            vstd::arithmetic::div_mod::lemma_fundamental_div_mod(n as int, bi);
            assert(a as int == (-(qi + 1)) * bi + (bi - ri - 1)) by (nonlinear_arith)
                requires
                    n as int == bi * qi + ri,
                    a as int == -(n as int + 1),
            ;
            vstd::arithmetic::div_mod::lemma_fundamental_div_mod_converse(a as int, bi, -(qi + 1), bi - ri - 1);
        }
        -q - 1
    }
}

impl Decimal {
    pub fn zero() -> (r: Decimal)
        ensures
            r.units == 0,
    {
        Decimal { units: 0 }
    }

    /// The whole number `n`.
    pub fn from_u64(n: u64) -> (r: Decimal)
        ensures
            r.units as int == n as int * UNITS_PER_ONE as int,
    {
        assert(n as int * UNITS_PER_ONE as int <= 18_446_744_073_709_551_615int * 1_000_000_000_000int) by (nonlinear_arith)
            requires n <= 18_446_744_073_709_551_615int;
        Decimal { units: (n as i128) * UNITS_PER_ONE }
    }

    /// The number `mantissa * 10^-scale`, or `None` when it has more than
    /// twelve fractional digits or lies outside the representable range.
    pub fn from_parts(mantissa: i128, scale: u32) -> (r: Option<Decimal>)
        requires
            scale <= 28,
        ensures
            r is Some <==> parts_representable(mantissa as int, scale as nat),
            r is Some ==> r->0.units as int == parts_units(mantissa as int, scale as nat),
    {
        if scale <= FRACTION_DIGITS {
            let p = pow10_i128(FRACTION_DIGITS - scale);
            match mantissa.checked_mul(p) {
                Some(u) => Some(Decimal { units: u }),
                None => None,
            }
        } else {
            let p = pow10_i128(scale - FRACTION_DIGITS);
            proof { lemma_pow10_positive((scale - 12) as nat); }
            let q = floor_div_i128(mantissa, p);
            proof {
                vstd::arithmetic::div_mod::lemma_fundamental_div_mod(mantissa as int, p as int);
                assert(q * p == mantissa - mantissa as int % p as int) by (nonlinear_arith)
                    requires
                        mantissa as int == p * q + mantissa as int % p as int,
                ;
            }
            match q.checked_mul(p) {
                Some(back) if back == mantissa => Some(Decimal { units: q }),
                _ => None,
            }
        }
    }
}

} // verus!
