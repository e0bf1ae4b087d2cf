//! Exact non-negative rational numbers.

use crate::bignat::{
    lemma_power_of_two_adds,
    lemma_power_of_two_positive,
    lemma_power_of_two_values,
    power_of_two,
    BigNat,
};
use vstd::prelude::*;

verus! {

/// The quotient of two naturals as a real number.
pub open spec fn quotient(num: nat, den: nat) -> real {
    num as real / den as real
}

/// The product of two naturals, as a real number, is the product of the two as real
/// numbers.
pub proof fn lemma_product_as_real(a: nat, b: nat)
    ensures
        (a * b) as real == a as real * b as real,
{
    assert((a * b) as real == a as real * b as real) by (nonlinear_arith);
}

/// A quotient of naturals is not negative, and zero exactly when the numerator is.
pub proof fn lemma_quotient_nonnegative(num: nat, den: nat)
    requires
        den > 0,
    ensures
        quotient(num, den) >= 0real,
        quotient(num, den) == 0real <==> num == 0,
{
    let x = num as real;
    let y = den as real;
    assert(x / y >= 0real && (x / y == 0real <==> x == 0real)) by (nonlinear_arith)
        requires
            x >= 0real,
            y > 0real,
    ;
}

/// A quotient by one is the numerator.
pub proof fn lemma_quotient_of_unit(num: nat)
    ensures
        quotient(num, 1) == num as real,
{
    let x = num as real;
    assert(x / 1real == x) by (nonlinear_arith);
}

/// The sum of two quotients, over the product of the denominators.
pub proof fn lemma_quotient_add(an: nat, ad: nat, bn: nat, bd: nat)
    requires
        ad > 0,
        bd > 0,
    ensures
        quotient(an * bd + bn * ad, ad * bd) == quotient(an, ad) + quotient(bn, bd),
        ad * bd > 0,
{
    let x = an as real;
    let y = ad as real;
    let z = bn as real;
    let w = bd as real;
    lemma_product_as_real(an, bd);
    lemma_product_as_real(bn, ad);
    lemma_product_as_real(ad, bd);
    assert((an * bd + bn * ad) as real == x * w + z * y);
    assert((x * w + z * y) / (y * w) == x / y + z / w) by (nonlinear_arith)
        requires
            y > 0real,
            w > 0real,
    ;
    assert(ad * bd > 0) by (nonlinear_arith)
        requires
            ad > 0,
            bd > 0,
    ;
}

/// The order and the difference of two quotients, over the product of the
/// denominators.
pub proof fn lemma_quotient_sub(an: nat, ad: nat, bn: nat, bd: nat)
    requires
        ad > 0,
        bd > 0,
    ensures
        an * bd >= bn * ad <==> quotient(an, ad) >= quotient(bn, bd),
        an * bd >= bn * ad ==> quotient((an * bd - bn * ad) as nat, ad * bd) == quotient(an, ad)
            - quotient(bn, bd),
        ad * bd > 0,
{
    let x = an as real;
    let y = ad as real;
    let z = bn as real;
    let w = bd as real;
    lemma_product_as_real(an, bd);
    lemma_product_as_real(bn, ad);
    lemma_product_as_real(ad, bd);
    assert((x * w >= z * y) <==> (x / y >= z / w)) by (nonlinear_arith)
        requires
            y > 0real,
            w > 0real,
    ;
    if an * bd >= bn * ad {
        assert(((an * bd - bn * ad) as nat) as real == x * w - z * y);
        assert((x * w - z * y) / (y * w) == x / y - z / w) by (nonlinear_arith)
            requires
                y > 0real,
                w > 0real,
        ;
    }
    assert(ad * bd > 0) by (nonlinear_arith)
        requires
            ad > 0,
            bd > 0,
    ;
}

/// The product of two quotients.
pub proof fn lemma_quotient_mul(an: nat, ad: nat, bn: nat, bd: nat)
    requires
        ad > 0,
        bd > 0,
    ensures
        quotient(an * bn, ad * bd) == quotient(an, ad) * quotient(bn, bd),
        ad * bd > 0,
{
    let x = an as real;
    let y = ad as real;
    let z = bn as real;
    let w = bd as real;
    lemma_product_as_real(an, bn);
    lemma_product_as_real(ad, bd);
    assert((x * z) / (y * w) == (x / y) * (z / w)) by (nonlinear_arith)
        requires
            y > 0real,
            w > 0real,
    ;
    assert(ad * bd > 0) by (nonlinear_arith)
        requires
            ad > 0,
            bd > 0,
    ;
}

/// The quotient of two quotients.
pub proof fn lemma_quotient_div(an: nat, ad: nat, bn: nat, bd: nat)
    requires
        ad > 0,
        bd > 0,
        bn > 0,
    ensures
        quotient(an * bd, ad * bn) == quotient(an, ad) / quotient(bn, bd),
        ad * bn > 0,
{
    let x = an as real;
    let y = ad as real;
    let z = bn as real;
    let w = bd as real;
    lemma_product_as_real(an, bd);
    lemma_product_as_real(ad, bn);
    assert((x * w) / (y * z) == (x / y) / (z / w)) by (nonlinear_arith)
        requires
            y > 0real,
            w > 0real,
            z > 0real,
    ;
    assert(ad * bn > 0) by (nonlinear_arith)
        requires
            ad > 0,
            bn > 0,
    ;
}

/// Two quotients compare as their cross products do.
pub proof fn lemma_quotient_order(an: nat, ad: nat, bn: nat, bd: nat)
    requires
        ad > 0,
        bd > 0,
    ensures
        an * bd < bn * ad <==> quotient(an, ad) < quotient(bn, bd),
        an * bd == bn * ad <==> quotient(an, ad) == quotient(bn, bd),
{
    let x = an as real;
    let y = ad as real;
    let z = bn as real;
    let w = bd as real;
    lemma_product_as_real(an, bd);
    lemma_product_as_real(bn, ad);
    assert(((x * w < z * y) <==> (x / y < z / w)) && ((x * w == z * y) <==> (x / y == z / w)))
        by (nonlinear_arith)
        requires
            y > 0real,
            w > 0real,
    ;
}

/// Two to the power `e`, for an exponent of either sign.
pub open spec fn binary_scale(e: int) -> real {
    if e >= 0 {
        power_of_two(e as nat) as real
    } else {
        1real / power_of_two((-e) as nat) as real
    }
}

/// The sign bit of a binary floating-point number of 64 bits.
pub open spec fn double_sign(bits: u64) -> nat {
    (bits / 0x8000_0000_0000_0000) as nat
}

/// The biased exponent of a binary floating-point number of 64 bits.
pub open spec fn double_exponent(bits: u64) -> nat {
    ((bits / 0x10_0000_0000_0000) % 0x800) as nat
}

/// The fraction field of a binary floating-point number of 64 bits.
pub open spec fn double_fraction(bits: u64) -> nat {
    (bits % 0x10_0000_0000_0000) as nat
}

/// Whether the bits denote a number that is finite and not negative.
pub open spec fn double_is_magnitude(bits: u64) -> bool {
    &&& double_exponent(bits) != 0x7ff
    &&& (double_sign(bits) == 0 || (double_exponent(bits) == 0 && double_fraction(bits) == 0))
}

/// The magnitude that the bits of a finite binary floating-point number denote.
pub open spec fn double_magnitude(bits: u64) -> real {
    if double_exponent(bits) == 0 {
        double_fraction(bits) as real * binary_scale(-1074)
    } else {
        (0x10_0000_0000_0000 + double_fraction(bits)) as real * binary_scale(
            double_exponent(bits) - 1075,
        )
    }
}

/// The distance from a finite binary floating-point number of 64 bits to the next.
pub open spec fn double_spacing(bits: u64) -> real {
    if double_exponent(bits) == 0 {
        binary_scale(-1074)
    } else {
        binary_scale(double_exponent(bits) - 1075)
    }
}

/// The bits of positive infinity.
pub open spec fn double_infinity() -> u64 {
    0x7ff0_0000_0000_0000
}

/// The least number that is as near to the finite number `bits` as to any other:
/// halfway down to the number before it, and zero for zero.
pub open spec fn double_lower_bound(bits: u64) -> real {
    if bits == 0 {
        0real
    } else {
        double_magnitude(bits) - double_spacing((bits - 1) as u64) / 2real
    }
}

/// The greatest number that is as near to the finite number `bits` as to any
/// other: halfway up to the number after it.
pub open spec fn double_upper_bound(bits: u64) -> real {
    double_magnitude(bits) + double_spacing(bits) / 2real
}

/// Whether `bits` is the binary floating-point number of 64 bits that is nearest
/// to `x`, and of two that are equally near the one whose last bit is zero. What
/// is as near to infinity as to the greatest finite number goes to infinity.
pub open spec fn rounds_to(x: real, bits: u64) -> bool {
    if bits == double_infinity() {
        x >= binary_scale(1024) - binary_scale(970)
    } else {
        &&& double_sign(bits) == 0
        &&& double_is_magnitude(bits)
        &&& double_lower_bound(bits) <= x <= double_upper_bound(bits)
        &&& x == double_upper_bound(bits) ==> bits % 2 == 0
        &&& bits > 0 && x == double_lower_bound(bits) ==> bits % 2 == 0
    }
}

/// Two to the power `e` is the quotient of two powers whose exponents differ by `e`.
pub proof fn lemma_binary_scale_as_quotient(e: int, top: nat)
    requires
        e <= top,
    ensures
        binary_scale(e) == quotient(power_of_two(top), power_of_two((top - e) as nat)),
        binary_scale(e) > 0real,
{
    let pt = power_of_two(top) as real;
    let pd = power_of_two((top - e) as nat) as real;
    lemma_power_of_two_positive(top);
    lemma_power_of_two_positive((top - e) as nat);
    if e >= 0 {
        let pe = power_of_two(e as nat) as real;
        lemma_power_of_two_positive(e as nat);
        lemma_power_of_two_adds(e as nat, (top - e) as nat);
        lemma_product_as_real(power_of_two(e as nat), power_of_two((top - e) as nat));
        assert(pt / pd == pe) by (nonlinear_arith)
            requires
                pt == pe * pd,
                pd > 0real,
        ;
    } else {
        let pe = power_of_two((-e) as nat) as real;
        lemma_power_of_two_positive((-e) as nat);
        lemma_power_of_two_adds(top, (-e) as nat);
        lemma_product_as_real(power_of_two(top), power_of_two((-e) as nat));
        assert(pt / pd == 1real / pe && 1real / pe > 0real) by (nonlinear_arith)
            requires
                pd == pt * pe,
                pt > 0real,
                pe > 0real,
        ;
    }
}

/// Each power of two is positive and half the next.
pub proof fn lemma_binary_scale_step(e: int)
    ensures
        binary_scale(e) > 0real,
        binary_scale(e + 1) == 2real * binary_scale(e),
{
    let top: nat = if e >= 0 {
        (e + 1) as nat
    } else {
        0nat
    };
    lemma_binary_scale_as_quotient(e, top);
    lemma_binary_scale_as_quotient(e + 1, top);
    let pt = power_of_two(top) as real;
    let lower = power_of_two((top - e - 1) as nat) as real;
    let upper = power_of_two((top - e) as nat) as real;
    lemma_power_of_two_positive((top - e - 1) as nat);
    assert(power_of_two((top - e) as nat) == 2 * power_of_two((top - e - 1) as nat));
    assert(pt / lower == 2real * (pt / upper)) by (nonlinear_arith)
        requires
            upper == 2real * lower,
            lower > 0real,
    ;
}

/// Powers of two multiply as their exponents add.
pub proof fn lemma_binary_scale_adds(e: int, k: nat)
    ensures
        binary_scale(e + k) == power_of_two(k) as real * binary_scale(e),
    decreases k,
{
    if k == 0 {
        assert(1real * binary_scale(e) == binary_scale(e));
    } else {
        lemma_binary_scale_adds(e, (k - 1) as nat);
        lemma_binary_scale_step(e + k - 1);
        let p = power_of_two((k - 1) as nat) as real;
        let s = binary_scale(e);
        assert(power_of_two(k) as real == 2real * p);
        assert(2real * (p * s) == (2real * p) * s) by (nonlinear_arith);
    }
}

/// The distance from a number to the next is positive.
pub proof fn lemma_spacing_positive(bits: u64)
    ensures
        double_spacing(bits) > 0real,
{
    lemma_binary_scale_step(-1074);
    lemma_binary_scale_step(double_exponent(bits) - 1075);
}

/// Where `b * m <= a < b * (m + 1)` for numerator and denominator scaled by powers
/// of two, the number lies in the step from `m * 2^e` to `(m + 1) * 2^e`, and in
/// its lower or upper half as twice the remainder is below or above `b`.
proof fn lemma_step_holds_number(n: nat, d: nat, a: nat, b: nat, m: nat, e: int, rest: nat)
    requires
        d > 0,
        e <= 971,
        a == n * power_of_two((971 - e) as nat),
        b == d * power_of_two(971),
        a == b * m + rest,
        rest < b,
    ensures
        m as real * binary_scale(e) <= quotient(n, d),
        quotient(n, d) < m as real * binary_scale(e) + binary_scale(e),
        2 * rest < b <==> quotient(n, d) < m as real * binary_scale(e) + binary_scale(e) / 2real,
        2 * rest == b <==> quotient(n, d) == m as real * binary_scale(e) + binary_scale(e)
            / 2real,
{
    let pa = power_of_two((971 - e) as nat);
    let pb = power_of_two(971);
    lemma_binary_scale_as_quotient(e, 971);
    lemma_power_of_two_positive((971 - e) as nat);
    lemma_power_of_two_positive(971);
    lemma_product_as_real(n, pa);
    lemma_product_as_real(d, pb);
    lemma_product_as_real(b, m);
    let nr = n as real;
    let dr = d as real;
    let par = pa as real;
    let pbr = pb as real;
    let mr = m as real;
    let rr = rest as real;
    let br = b as real;
    let s = binary_scale(e);
    let v = nr / dr;
    assert(br == dr * pbr);
    assert(nr * par == br * mr + rr);
    assert(br > 0real) by (nonlinear_arith)
        requires
            br == dr * pbr,
            dr > 0real,
            pbr > 0real,
    ;
    // the number is `(m + rest / b) * 2^e`
    assert(v * br == (br * mr + rr) * s) by (nonlinear_arith)
        requires
            v == nr / dr,
            s == pbr / par,
            br == dr * pbr,
            nr * par == br * mr + rr,
            dr > 0real,
            par > 0real,
            pbr > 0real,
    ;
    assert((v - mr * s) * br == rr * s) by (nonlinear_arith)
        requires
            v * br == (br * mr + rr) * s,
    ;
    let over = v - mr * s;
    assert(0real <= over < s && (2real * rr < br <==> over < s / 2real) && (2real * rr == br
        <==> over == s / 2real)) by (nonlinear_arith)
        requires
            over * br == rr * s,
            0real <= rr < br,
            s > 0real,
    ;
}

/// A non-negative rational number: a numerator over a positive denominator.
/// Fractions are kept as they are computed and are not reduced.
#[derive(Debug)]
pub struct Ratio {
    num: BigNat,
    den: BigNat,
}

impl View for Ratio {
    type V = real;

    open spec fn view(&self) -> real {
        quotient(self.spec_num(), self.spec_den())
    }
}

impl Ratio {
    /// The numerator of the fraction as it is held.
    pub closed spec fn spec_num(&self) -> nat {
        self.num@
    }

    /// The denominator of the fraction as it is held.
    pub closed spec fn spec_den(&self) -> nat {
        self.den@
    }

    /// The denominator is positive. This holds of every value that the program holds.
    #[verifier::type_invariant]
    pub open spec fn wf(&self) -> bool {
        self.spec_den() > 0
    }

    /// The fraction `num / den`, unless `den` is zero.
    pub fn new(num: BigNat, den: BigNat) -> (r: Option<Ratio>)
        ensures
            r.is_some() <==> den@ != 0,
            r.is_some() ==> r.unwrap().spec_num() == num@ && r.unwrap().spec_den() == den@,
    {
        if den.is_zero() {
            None
        } else {
            Some(Ratio { num, den })
        }
    }

    /// The whole number `n`.
    pub fn from_u64(n: u64) -> (r: Ratio)
        ensures
            r@ == n as real,
            r.spec_num() == n,
            r.spec_den() == 1,
    {
        proof {
            lemma_quotient_of_unit(n as nat);
        }
        Ratio { num: BigNat::from_u64(n), den: BigNat::from_u64(1) }
    }

    /// The fraction `num / den`, unless `den` is zero.
    pub fn from_fraction(num: u64, den: u64) -> (r: Option<Ratio>)
        ensures
            r.is_some() <==> den != 0,
            r.is_some() ==> r.unwrap()@ == quotient(num as nat, den as nat),
    {
        Ratio::new(BigNat::from_u64(num), BigNat::from_u64(den))
    }

    /// The number `mantissa * 2^exponent`.
    pub fn from_binary(mantissa: u64, exponent: i16) -> (r: Ratio)
        ensures
            r@ == mantissa as real * binary_scale(exponent as int),
    {
        if exponent >= 0 {
            let scale = BigNat::power_of_two(exponent as u16);
            let num = BigNat::from_u64(mantissa).mul(&scale);
            proof {
                lemma_product_as_real(mantissa as nat, scale@);
                lemma_quotient_of_unit(num@);
            }
            Ratio { num, den: BigNat::from_u64(1) }
        } else {
            let k: u16 = (-(exponent as i32)) as u16;
            let den = BigNat::power_of_two(k);
            proof {
                lemma_power_of_two_positive(k as nat);
                let m = mantissa as real;
                let d = den@ as real;
                assert(m / d == m * (1real / d)) by (nonlinear_arith)
                    requires
                        d > 0real,
                ;
            }
            Ratio { num: BigNat::from_u64(mantissa), den }
        }
    }

    /// The number that a binary floating-point number of 64 bits denotes, given by
    /// its bits, where it is finite and not negative.
    pub fn from_ieee_double(bits: u64) -> (r: Option<Ratio>)
        ensures
            r.is_some() <==> double_is_magnitude(bits),
            r.is_some() ==> r.unwrap()@ == double_magnitude(bits),
    {
        let sign: u64 = bits / 0x8000_0000_0000_0000;
        let exponent: u64 = (bits / 0x10_0000_0000_0000) % 0x800;
        let fraction: u64 = bits % 0x10_0000_0000_0000;
        if exponent == 0x7ff {
            None
        } else if sign != 0 && !(exponent == 0 && fraction == 0) {
            None
        } else if exponent == 0 {
            Some(Ratio::from_binary(fraction, -1074))
        } else {
            Some(Ratio::from_binary(0x10_0000_0000_0000 + fraction, exponent as i16 - 1075))
        }
    }

    /// Numerator and denominator scaled by powers of two, and the exponent `e`, such
    /// that their quotient is this number over `2^e` and lies from 2^52 up to 2^53,
    /// or below 2^52 where `e` is the least exponent there is.
    fn scaled(&self) -> (r: (BigNat, BigNat, i32))
        requires
            self.spec_num() < self.spec_den() * power_of_two(1024),
        ensures
            -1074 <= r.2 <= 971,
            r.0@ == self.spec_num() * power_of_two((971 - r.2) as nat),
            r.1@ == self.spec_den() * power_of_two(971),
            r.0@ < r.1@ * 0x20_0000_0000_0000,
            r.2 > -1074 ==> r.0@ >= r.1@ * 0x10_0000_0000_0000,
    {
        proof {
            lemma_power_of_two_adds(971, 53);
            lemma_power_of_two_values();
        }
        let b = self.den.mul(&BigNat::power_of_two(971));
        let c = b.mul(&BigNat::from_u64(0x10_0000_0000_0000));
        let mut a = self.num.duplicate();
        let mut e: i32 = 971;
        assert(self.den@ * power_of_two(1024) == b@ * 0x20_0000_0000_0000) by (nonlinear_arith)
            requires
                b@ == self.den@ * power_of_two(971),
                power_of_two(1024) == power_of_two(971) * 0x20_0000_0000_0000,
        ;
        assert(a@ == self.num@ * power_of_two(0)) by (nonlinear_arith)
            requires
                a@ == self.num@,
                power_of_two(0) == 1,
        ;
        let mut more: bool = a.less_than(&c);
        while e > -1074 && more
            invariant
                -1074 <= e <= 971,
                a@ == self.num@ * power_of_two((971 - e) as nat),
                b@ == self.den@ * power_of_two(971),
                c@ == b@ * 0x10_0000_0000_0000,
                a@ < b@ * 0x20_0000_0000_0000,
                more == (a@ < c@),
            decreases e + 1074,
        {
            proof {
                let p = power_of_two((971 - e) as nat);
                assert(power_of_two((971 - (e - 1)) as nat) == 2 * p);
                assert(self.num@ * (2 * p) == self.num@ * p + self.num@ * p) by (nonlinear_arith);
                assert(b@ * 0x20_0000_0000_0000 == b@ * 0x10_0000_0000_0000 + b@
                    * 0x10_0000_0000_0000) by (nonlinear_arith);
            }
            a = a.add(&a);
            e = e - 1;
            more = a.less_than(&c);
        }
        (a, b, e)
    }

    /// The bits of the greatest binary floating-point number of 64 bits that is not
    /// above this number, which is below 2^1024, with what is left of the number
    /// above it: the scaled numerator and denominator, the significand and the
    /// exponent.
    fn floor_double(&self) -> (r: (u64, BigNat, BigNat, u64, i32))
        requires
            self.spec_num() < self.spec_den() * power_of_two(1024),
        ensures
            -1074 <= r.4 <= 971,
            r.1@ == self.spec_num() * power_of_two((971 - r.4) as nat),
            r.2@ == self.spec_den() * power_of_two(971),
            r.2@ * r.3 <= r.1@,
            r.1@ < r.2@ * (r.3 + 1),
            r.3 < 0x20_0000_0000_0000,
            r.0 < double_infinity(),
            r.0 % 2 == r.3 % 2,
            double_sign(r.0) == 0,
            double_is_magnitude(r.0),
            double_magnitude(r.0) == r.3 as real * binary_scale(r.4 as int),
            double_spacing(r.0) == binary_scale(r.4 as int),
            r.0 + 1 == double_infinity() ==> r.3 == 0x1f_ffff_ffff_ffff && r.4 == 971,
            r.0 + 1 < double_infinity() ==> {
                &&& double_sign((r.0 + 1) as u64) == 0
                &&& double_is_magnitude((r.0 + 1) as u64)
                &&& double_magnitude((r.0 + 1) as u64) == (r.3 + 1) as real * binary_scale(
                    r.4 as int,
                )
            },
    {
        let (a, b, e) = self.scaled();
        let m = a.small_quotient(&b);
        proof {
            lemma_binary_scale_step(e as int);
            if e > -1074 {
                assert(m >= 0x10_0000_0000_0000) by (nonlinear_arith)
                    requires
                        a@ >= b@ * 0x10_0000_0000_0000,
                        a@ < b@ * (m + 1),
                ;
            }
        }
        if m >= 0x10_0000_0000_0000 {
            let biased: u64 = (e as i64 + 1075) as u64;
            let fraction: u64 = m - 0x10_0000_0000_0000;
            let bits: u64 = biased * 0x10_0000_0000_0000 + fraction;
            proof {
                let next = (bits + 1) as u64;
                assert(double_exponent(bits) == biased);
                assert(double_fraction(bits) == fraction);
                if fraction + 1 < 0x10_0000_0000_0000 {
                    assert(double_exponent(next) == biased);
                    assert(double_fraction(next) == fraction + 1);
                } else if biased < 2046 {
                    assert(next == (biased + 1) * 0x10_0000_0000_0000);
                    assert(double_exponent(next) == biased + 1);
                    assert(double_fraction(next) == 0);
                    let s = binary_scale(e as int);
                    assert(0x10_0000_0000_0000 as real * (2real * s) == 0x20_0000_0000_0000 as real
                        * s);
                }
            }
            (bits, a, b, m, e)
        } else {
            proof {
                let next = (m + 1) as u64;
                assert(double_exponent(m) == 0);
                assert(double_fraction(m) == m);
                if m + 1 < 0x10_0000_0000_0000 {
                    assert(double_exponent(next) == 0);
                    assert(double_fraction(next) == m + 1);
                } else {
                    assert(double_exponent(next) == 1);
                    assert(double_fraction(next) == 0);
                }
            }
            (m, a, b, m, e)
        }
    }

    /// The bits of the binary floating-point number of 64 bits that is nearest to
    /// this number; of two that are equally near, the one whose last bit is zero.
    /// A number too great for any finite one gives the bits of infinity.
    pub fn to_ieee_double(&self) -> (r: u64)
        ensures
            rounds_to(self@, r),
    {
        proof {
            use_type_invariant(self);
            lemma_binary_scale_as_quotient(1024, 1024);
            lemma_quotient_of_unit(power_of_two(1024));
            lemma_quotient_order(self.num@, self.den@, power_of_two(1024), 1);
            lemma_quotient_nonnegative(self.num@, self.den@);
            lemma_binary_scale_step(970);
            lemma_binary_scale_adds(971, 53);
            lemma_power_of_two_values();
        }
        let limit = self.den.mul(&BigNat::power_of_two(1024));
        if !self.num.less_than(&limit) {
            return 0x7ff0_0000_0000_0000;
        }
        let (bits, a, b, m, e) = self.floor_double();
        let rest = a.checked_sub(&b.mul(&BigNat::from_u64(m))).unwrap();
        let twice = rest.add(&rest);
        let up = if b.less_than(&twice) {
            true
        } else if twice.less_than(&b) {
            false
        } else {
            m % 2 == 1
        };
        proof {
            assert(rest@ < b@) by (nonlinear_arith)
                requires
                    a@ < b@ * (m + 1),
                    rest@ == a@ - b@ * m,
            ;
            lemma_step_holds_number(self.num@, self.den@, a@, b@, m as nat, e as int, rest@);
            lemma_spacing_positive(bits);
            if bits > 0 {
                lemma_spacing_positive((bits - 1) as u64);
            }
            if bits + 1 < double_infinity() {
                lemma_spacing_positive((bits + 1) as u64);
                let s = binary_scale(e as int);
                assert((m + 1) as real * s == m as real * s + s) by (nonlinear_arith);
            } else {
                let s = binary_scale(971);
                assert(0x1f_ffff_ffff_ffff as real * s == 0x20_0000_0000_0000 as real * s - s)
                    by (nonlinear_arith);
            }
        }
        if up {
            bits + 1
        } else {
            bits
        }
    }

    /// The numerator of the fraction as it is held.
    pub fn numerator(&self) -> (r: BigNat)
        ensures
            r@ == self.spec_num(),
    {
        self.num.duplicate()
    }

    /// The denominator of the fraction as it is held.
    pub fn denominator(&self) -> (r: BigNat)
        ensures
            r@ == self.spec_den(),
            r@ > 0,
    {
        proof {
            use_type_invariant(self);
        }
        self.den.duplicate()
    }

    /// A copy of the number.
    pub fn duplicate(&self) -> (r: Ratio)
        ensures
            r@ == self@,
            r.spec_num() == self.spec_num(),
            r.spec_den() == self.spec_den(),
    {
        proof {
            use_type_invariant(self);
        }
        Ratio { num: self.num.duplicate(), den: self.den.duplicate() }
    }

    /// Whether the number is zero.
    pub fn is_zero(&self) -> (r: bool)
        ensures
            r == (self@ == 0real),
    {
        proof {
            use_type_invariant(self);
            lemma_quotient_nonnegative(self.num@, self.den@);
        }
        self.num.is_zero()
    }

    /// The sum of the two numbers.
    pub fn add(&self, other: &Ratio) -> (r: Ratio)
        ensures
            r@ == self@ + other@,
    {
        proof {
            use_type_invariant(self);
            use_type_invariant(other);
            lemma_quotient_add(self.num@, self.den@, other.num@, other.den@);
        }
        let left = self.num.mul(&other.den);
        let right = other.num.mul(&self.den);
        Ratio { num: left.add(&right), den: self.den.mul(&other.den) }
    }

    /// The difference `self - other`, where `other` is not the greater.
    pub fn checked_sub(&self, other: &Ratio) -> (r: Option<Ratio>)
        ensures
            r.is_some() <==> self@ >= other@,
            r.is_some() ==> r.unwrap()@ == self@ - other@,
    {
        proof {
            use_type_invariant(self);
            use_type_invariant(other);
            lemma_quotient_sub(self.num@, self.den@, other.num@, other.den@);
        }
        let left = self.num.mul(&other.den);
        let right = other.num.mul(&self.den);
        match left.checked_sub(&right) {
            Some(num) => Some(Ratio { num, den: self.den.mul(&other.den) }),
            None => None,
        }
    }

    /// The product of the two numbers.
    pub fn mul(&self, other: &Ratio) -> (r: Ratio)
        ensures
            r@ == self@ * other@,
    {
        proof {
            use_type_invariant(self);
            use_type_invariant(other);
            lemma_quotient_mul(self.num@, self.den@, other.num@, other.den@);
        }
        Ratio { num: self.num.mul(&other.num), den: self.den.mul(&other.den) }
    }

    /// The quotient `self / other`, unless `other` is zero.
    pub fn div(&self, other: &Ratio) -> (r: Option<Ratio>)
        ensures
            r.is_some() <==> other@ != 0real,
            r.is_some() ==> r.unwrap()@ == self@ / other@,
    {
        proof {
            use_type_invariant(self);
            use_type_invariant(other);
            lemma_quotient_nonnegative(other.num@, other.den@);
        }
        if other.num.is_zero() {
            None
        } else {
            proof {
                lemma_quotient_div(self.num@, self.den@, other.num@, other.den@);
            }
            Some(Ratio { num: self.num.mul(&other.den), den: self.den.mul(&other.num) })
        }
    }

    /// Whether `self` is strictly smaller than `other`.
    pub fn less_than(&self, other: &Ratio) -> (r: bool)
        ensures
            r == (self@ < other@),
    {
        proof {
            use_type_invariant(self);
            use_type_invariant(other);
            lemma_quotient_order(self.num@, self.den@, other.num@, other.den@);
        }
        let left = self.num.mul(&other.den);
        let right = other.num.mul(&self.den);
        left.less_than(&right)
    }

    /// Whether the two numbers are equal, whatever fractions denote them.
    pub fn equals(&self, other: &Ratio) -> (r: bool)
        ensures
            r == (self@ == other@),
    {
        proof {
            use_type_invariant(self);
            use_type_invariant(other);
            lemma_quotient_order(self.num@, self.den@, other.num@, other.den@);
        }
        let left = self.num.mul(&other.den);
        let right = other.num.mul(&self.den);
        left.equals(&right)
    }

    /// No value of this type is negative.
    pub proof fn lemma_nonnegative(&self)
        requires
            self.wf(),
        ensures
            self@ >= 0real,
    {
        lemma_quotient_nonnegative(self.spec_num(), self.spec_den());
    }
}

} // verus!
