//! Split ratios: the double-precision numbers between 0.01 and 0.99 at which a pane is divided.
//!
//! Every double in that range is a whole number of units of 2^-59, so a ratio is held as that
//! number and its arithmetic is done on integers, rounding as IEEE 754 does: to 53 significant
//! bits, to the nearest, ties to the even neighbour.
use vstd::arithmetic::div_mod::*;
use vstd::arithmetic::mul::*;
use vstd::arithmetic::power2::*;
use vstd::prelude::*;

verus! {

/// One, in units of 2^-59.
pub const ONE: u64 = 0x800_0000_0000_0000;

/// The double nearest to 0.5.
pub const HALF: u64 = 0x400_0000_0000_0000;

/// The double nearest to 0.05: how far one keystroke moves a boundary.
pub const STEP: u64 = 0x66_6666_6666_6668;

/// The double nearest to 0.01: the least ratio.
pub const LEAST: u64 = 0x14_7ae1_47ae_147b;

/// The double nearest to 0.99: the greatest ratio.
pub const GREATEST: u64 = 0x7eb_851e_b851_eb80;

/// The first integer with more than 53 significant bits is one more than this.
pub const MANTISSA_END: u64 = 0x20_0000_0000_0000;

/// The spacing of the doubles around `x`: the least power of two `p` with `x < 2^53 * p`.
pub open spec fn spacing(x: nat) -> nat
    decreases x,
{
    if x < MANTISSA_END {
        1
    } else {
        2 * spacing(x / 2)
    }
}

/// The multiple of `p` nearest to `x`; of two equally near, the even multiple.
pub open spec fn nearest(x: nat, p: nat) -> nat {
    let q = x / p;
    let r = x % p;
    if 2 * r < p || (2 * r == p && q % 2 == 0) {
        q * p
    } else {
        (q + 1) * p
    }
}

/// `x` as a double.
pub open spec fn rounded(x: nat) -> nat {
    nearest(x, spacing(x))
}

/// `n` times the ratio of `units`, as the product of two doubles cut to an integer.
pub open spec fn scaled(units: nat, n: nat) -> nat {
    rounded(rounded(n) * units) / ONE as nat
}

/// `x` moved into the range of the ratios.
pub open spec fn clamped(x: int) -> int {
    if x < LEAST {
        LEAST as int
    } else if x > GREATEST {
        GREATEST as int
    } else {
        x
    }
}

/// The ratio one step beyond `units`: larger if `grow`, smaller if not.
pub open spec fn stepped(units: nat, grow: bool) -> int {
    if grow {
        clamped(rounded(units + STEP as nat) as int)
    } else if units < STEP {
        LEAST as int
    } else {
        clamped(rounded((units - STEP) as nat) as int)
    }
}

/// The spacing puts `x` between 2^52 and 2^53 spacings, where it is more than one.
pub proof fn lemma_spacing_bounds(x: nat)
    ensures
        spacing(x) > 0,
        x < MANTISSA_END ==> spacing(x) == 1,
        x >= MANTISSA_END ==> 0x10_0000_0000_0000 * spacing(x) <= x,
        x < MANTISSA_END * spacing(x),
    decreases x,
{
    if x >= MANTISSA_END {
        lemma_spacing_bounds(x / 2);
    }
}

/// Rounding changes a number by at most one part in 2^52.
pub proof fn lemma_rounded_error(x: nat)
    ensures
        0x10_0000_0000_0000 * rounded(x) <= 0x10_0000_0000_0001 * x,
        x < MANTISSA_END ==> rounded(x) == x,
{
    let p = spacing(x);
    lemma_spacing_bounds(x);
    let q = x / p;
    let r = x % p;
    lemma_fundamental_div_mod(x as int, p as int);
    lemma_mul_is_commutative(q as int, p as int);
    assert((q + 1) * p == q * p + p) by (nonlinear_arith);
    if x < MANTISSA_END {
        assert(p == 1);
        assert(r == 0);
    }
}

/// `x` rounded to a double.
pub fn round_to_double(x: u128) -> (result: u128)
    requires
        x < 0x1000_0000_0000_0000_0000_0000_0000_0000,
    ensures
        result == rounded(x as nat),
{
    let mut p: u128 = 1;
    let mut y: u128 = x;
    while y >= MANTISSA_END as u128
        invariant
            x < 0x1000_0000_0000_0000_0000_0000_0000_0000,
            p >= 1,
            p * y <= x,
            spacing(x as nat) == p * spacing(y as nat),
        decreases y,
    {
        let ghost half = y as nat / 2;
        proof {
            assert(p * spacing(y as nat) == (2 * p) * spacing(half)) by (nonlinear_arith)
                requires
                    spacing(y as nat) == 2 * spacing(half),
            ;
            assert((2 * p) * half <= p * y) by (nonlinear_arith)
                requires
                    2 * half <= y,
                    p >= 1,
            ;
            assert(2 * p <= (2 * p) * half) by (nonlinear_arith)
                requires
                    half >= 1,
                    p >= 1,
            ;
        }
        y = y / 2;
        p = 2 * p;
    }
    let q: u128 = x / p;
    let r: u128 = x % p;
    proof {
        assert(p * spacing(y as nat) == p) by (nonlinear_arith)
            requires
                spacing(y as nat) == 1,
        ;
        lemma_spacing_bounds(x as nat);
        lemma_fundamental_div_mod(x as int, p as int);
        lemma_mul_is_commutative(q as int, p as int);
        assert((q + 1) * p == q * p + p) by (nonlinear_arith);
        if x < MANTISSA_END {
            assert(p == 1);
        }
    }
    if 2 * r < p || (2 * r == p && q % 2 == 0) {
        q * p
    } else {
        (q + 1) * p
    }
}

/// The share of a divided pane that its first part gets.
#[derive(Clone, Copy, Debug, PartialEq, Eq, Structural)]
pub struct Ratio {
    pub units: u64,
}

impl Ratio {
    /// The ratio lies between 0.01 and 0.99.
    pub open spec fn wf(self) -> bool {
        LEAST <= self.units <= GREATEST
    }

    /// The ratio of a pane divided in the middle.
    pub fn half() -> (ratio: Ratio)
        ensures
            ratio.wf(),
            ratio.units == HALF,
    {
        Ratio { units: HALF }
    }

    /// How many of `n` columns or rows the first part gets.
    pub fn scale(self, n: usize) -> (share: usize)
        requires
            self.wf(),
        ensures
            share == scaled(self.units as nat, n as nat),
            share <= n,
            n > 0 ==> share < n,
    {
        proof {
            lemma_rounded_error(n as nat);
        }
        let wide: u128 = round_to_double(n as u128);
        proof {
            assert(wide * self.units <= wide * GREATEST) by (nonlinear_arith)
                requires
                    self.units <= GREATEST,
            ;
        }
        let product: u128 = wide * (self.units as u128);
        proof {
            lemma_rounded_error(product as nat);
            lemma_scaled_below(self.units as nat, n as nat);
        }
        let exact: u128 = round_to_double(product);
        (exact / (ONE as u128)) as usize
    }

    /// The ratio after one keystroke: a step of 0.05, larger if `grow`, kept in range.
    pub fn step(self, grow: bool) -> (next: Ratio)
        requires
            self.wf(),
        ensures
            next.wf(),
            next.units == stepped(self.units as nat, grow),
    {
        let moved: u128 = if grow {
            round_to_double((self.units + STEP) as u128)
        } else if self.units < STEP {
            0
        } else {
            round_to_double((self.units - STEP) as u128)
        };
        if moved < LEAST as u128 {
            Ratio { units: LEAST }
        } else if moved > GREATEST as u128 {
            Ratio { units: GREATEST }
        } else {
            Ratio { units: moved as u64 }
        }
    }
}

/// The first part of a division is never larger than the whole, and of something never all.
pub proof fn lemma_scaled_below(units: nat, n: nat)
    requires
        units <= GREATEST,
    ensures
        scaled(units, n) <= n,
        n > 0 ==> scaled(units, n) < n,
{
    let wide = rounded(n);
    let product = wide * units;
    lemma_rounded_error(n);
    lemma_rounded_error(product);
    assert(product <= wide * GREATEST) by (nonlinear_arith)
        requires
            product == wide * units,
            units <= GREATEST,
    ;
}

/// A division in the middle gives the first part half, rounded down.
pub proof fn lemma_half_is_half(n: nat)
    requires
        n < MANTISSA_END,
    ensures
        scaled(HALF as nat, n) == n / 2,
{
    lemma_rounded_error(n);
    lemma_shifted_is_double(n, 58);
    lemma2_to64();
    lemma_pow2_adds(32, 26);
    assert(n * HALF as nat == HALF as nat * n);
}

/// An integer of at most 53 bits stays a double when shifted left.
pub proof fn lemma_shifted_is_double(n: nat, k: nat)
    requires
        n < MANTISSA_END,
    ensures
        rounded(n * pow2(k)) == n * pow2(k),
    decreases k,
{
    if k == 0 {
        lemma_rounded_error(n);
        lemma2_to64();
    } else {
        lemma_pow2_unfold(k);
        lemma_shifted_is_double(n, (k - 1) as nat);
        let x = n * pow2((k - 1) as nat);
        let x2 = n * pow2(k);
        assert(x2 == 2 * x) by (nonlinear_arith)
            requires
                x == n * pow2((k - 1) as nat),
                x2 == n * pow2(k),
                pow2(k) == 2 * pow2(
                    (k - 1) as nat,
                ),
        ;
        if x2 < MANTISSA_END {
            lemma_rounded_error(x2);
        } else {
            let p = spacing(x);
            lemma_spacing_bounds(x);
            assert(spacing(x2) == 2 * p);
            let q = x / p;
            let r = x % p;
            lemma_fundamental_div_mod(x as int, p as int);
            assert(x2 == q * (2 * p) + 2 * r) by (nonlinear_arith)
                requires
                    x2 == 2 * x,
                    x == p * q + r,
            ;
            lemma_fundamental_div_mod_converse(
                x2 as int,
                (2 * p) as int,
                q as int,
                (2 * r) as int,
            );
            assert(q * (2 * p) == 2 * (q * p)) by (nonlinear_arith);
            assert((q + 1) * (2 * p) == 2 * ((q + 1) * p)) by (nonlinear_arith);
        }
    }
}

/// A double is never further from the number it stands for than half the spacing of the doubles
/// there.
proof fn lemma_nearest_error(x: nat)
    ensures
        2 * rounded(x) <= 2 * x + spacing(x),
        2 * x <= 2 * rounded(x) + spacing(x),
{
    let p = spacing(x);
    lemma_spacing_bounds(x);
    let q = x / p;
    lemma_fundamental_div_mod(x as int, p as int);
    lemma_mul_is_commutative(q as int, p as int);
    assert((q + 1) * p == q * p + p) by (nonlinear_arith);
}

/// A keystroke moves a boundary by one twentieth of the divided length in the wanted sense, and by
/// no more: the ratio grows or shrinks by a step, but for the rounding of doubles, until it
/// reaches the end of its range, a hundredth or ninety-nine.
pub proof fn law_a_step_is_a_twentieth(units: nat, grow: bool)
    requires
        LEAST <= units <= GREATEST,
    ensures
        LEAST <= stepped(units, grow) <= GREATEST,
        grow && units < GREATEST ==> {
            &&& units < stepped(units, true) <= units + ONE / 20 + 256
            &&& stepped(units, true) >= units + ONE / 20 - 256 || stepped(units, true) == GREATEST
        },
        !grow && units > LEAST ==> {
            &&& units - ONE / 20 - 256 <= stepped(units, false) < units
            &&& stepped(units, false) <= units - ONE / 20 + 256 || stepped(units, false) == LEAST
        },
        grow && units == GREATEST ==> stepped(units, true) == GREATEST,
        !grow && units == LEAST ==> stepped(units, false) == LEAST,
        -256 <= 100 * LEAST - ONE <= 256,
        -1024 <= 100 * GREATEST - 99 * ONE <= 1024,
{
    let up = units + STEP as nat;
    lemma_nearest_error(up);
    lemma_spacing_bounds(up);
    if units >= STEP {
        let down = (units - STEP) as nat;
        lemma_nearest_error(down);
        lemma_spacing_bounds(down);
    }
}

/// The first part of a division has the share of the whole that the ratio says, cut to an integer,
/// but for the rounding of doubles.
pub proof fn law_the_share_follows_the_ratio(units: nat, n: nat)
    requires
        LEAST <= units <= GREATEST,
        n <= 65535,
    ensures
        scaled(units, n) * ONE <= n * units + 0x80_0000,
        n * units < (scaled(units, n) + 1) * ONE + 0x80_0000,
{
    lemma_rounded_error(n);
    let product = n * units;
    assert(product <= 65535 * GREATEST) by (nonlinear_arith)
        requires
            product == n * units,
            n <= 65535,
            units <= GREATEST,
    ;
    lemma_nearest_error(product);
    lemma_spacing_bounds(product);
    lemma_fundamental_div_mod(rounded(product) as int, ONE as int);
}

} // verus!
