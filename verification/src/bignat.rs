//! Natural numbers of arbitrary size, held as little-endian limbs of 32 bits.

use vstd::prelude::*;

verus! {

const LIMB_RADIX: u64 = 0x1_0000_0000;

/// The radix of one limb, 2^32.
pub open spec fn limb_base() -> nat {
    0x1_0000_0000
}

/// The weight of the limb at position `i`: the radix to the power `i`.
pub open spec fn limb_weight(i: nat) -> nat
    decreases i,
{
    if i == 0 {
        1
    } else {
        limb_base() * limb_weight((i - 1) as nat)
    }
}

/// The number that a little-endian sequence of limbs denotes.
pub open spec fn limbs_value(s: Seq<u32>) -> nat
    decreases s.len(),
{
    if s.len() == 0 {
        0
    } else {
        limbs_value(s.drop_last()) + s.last() as nat * limb_weight((s.len() - 1) as nat)
    }
}

/// The limb at position `i`, or zero beyond the end.
pub open spec fn limb_at(s: Seq<u32>, i: nat) -> nat {
    if i < s.len() {
        s[i as int] as nat
    } else {
        0
    }
}

/// The number denoted by the first `i` limbs (all of them, if there are fewer).
pub open spec fn prefix_value(s: Seq<u32>, i: nat) -> nat {
    if i < s.len() {
        limbs_value(s.take(i as int))
    } else {
        limbs_value(s)
    }
}

/// The weight of every position is positive.
pub proof fn lemma_weight_positive(i: nat)
    ensures
        limb_weight(i) > 0,
    decreases i,
{
    if i > 0 {
        lemma_weight_positive((i - 1) as nat);
        assert(limb_base() * limb_weight((i - 1) as nat) > 0) by (nonlinear_arith)
            requires
                limb_weight((i - 1) as nat) > 0,
                limb_base() > 0,
        ;
    }
}

/// A limb appended at the end counts with the weight of its position.
pub proof fn lemma_value_push(s: Seq<u32>, x: u32)
    ensures
        limbs_value(s.push(x)) == limbs_value(s) + x as nat * limb_weight(s.len()),
{
    assert(s.push(x).drop_last() =~= s);
}

/// A number of `n` limbs is below the weight of position `n`.
pub proof fn lemma_value_bound(s: Seq<u32>)
    ensures
        limbs_value(s) < limb_weight(s.len()),
    decreases s.len(),
{
    if s.len() > 0 {
        let w = limb_weight((s.len() - 1) as nat);
        let top = s.last() as nat;
        lemma_value_bound(s.drop_last());
        assert(top * w + w <= limb_base() * w) by (nonlinear_arith)
            requires
                top + 1 <= limb_base(),
        ;
    }
}

/// One more limb adds the limb times the weight of its position.
pub proof fn lemma_prefix_step(s: Seq<u32>, i: nat)
    ensures
        prefix_value(s, i + 1) == prefix_value(s, i) + limb_at(s, i) * limb_weight(i),
{
    if i < s.len() {
        let t = s.take(i as int + 1);
        assert(t.drop_last() =~= s.take(i as int));
        assert(t.last() == s[i as int]);
        assert(limbs_value(t) == limbs_value(t.drop_last()) + t.last() as nat * limb_weight(i));
        if i + 1 == s.len() {
            assert(t =~= s);
        }
    } else {
        assert(limb_at(s, i) == 0);
        assert(0 * limb_weight(i) == 0);
    }
}

/// No limbs denote zero.
pub proof fn lemma_prefix_zero(s: Seq<u32>)
    ensures
        prefix_value(s, 0) == 0,
{
    if s.len() > 0 {
        assert(s.take(0).len() == 0);
    }
}

/// The weights of positions multiply as the positions add.
pub proof fn lemma_weight_adds(a: nat, b: nat)
    ensures
        limb_weight(a + b) == limb_weight(a) * limb_weight(b),
    decreases b,
{
    if b == 0 {
        assert(limb_weight(a) * 1 == limb_weight(a));
    } else {
        lemma_weight_adds(a, (b - 1) as nat);
        let wa = limb_weight(a);
        let wb = limb_weight((b - 1) as nat);
        assert(limb_weight(a + b) == limb_base() * limb_weight((a + b - 1) as nat));
        assert(limb_base() * (wa * wb) == wa * (limb_base() * wb)) by (nonlinear_arith);
    }
}

/// A number is zero exactly when all its limbs are.
pub proof fn lemma_zero_limbs(s: Seq<u32>)
    ensures
        limbs_value(s) == 0 <==> (forall|i: int| 0 <= i < s.len() ==> s[i] == 0),
    decreases s.len(),
{
    if s.len() > 0 {
        let t = s.drop_last();
        let w = limb_weight((s.len() - 1) as nat);
        let top = s.last() as nat;
        lemma_zero_limbs(t);
        lemma_weight_positive((s.len() - 1) as nat);
        assert(top > 0 ==> top * w > 0) by (nonlinear_arith)
            requires
                w > 0,
        ;
        assert(top == 0 ==> top * w == 0) by (nonlinear_arith);
        if limbs_value(s) == 0 {
            assert forall|i: int| 0 <= i < s.len() implies s[i] == 0 by {
                if i < t.len() {
                    assert(t[i] == s[i]);
                }
            }
        }
        if forall|i: int| 0 <= i < s.len() ==> s[i] == 0 {
            assert forall|i: int| 0 <= i < t.len() implies t[i] == 0 by {
                assert(t[i] == s[i]);
            }
        }
    }
}

/// Two to the power `k`.
pub open spec fn power_of_two(k: nat) -> nat
    decreases k,
{
    if k == 0 {
        1
    } else {
        2 * power_of_two((k - 1) as nat)
    }
}

/// Every power of two is positive.
pub proof fn lemma_power_of_two_positive(k: nat)
    ensures
        power_of_two(k) > 0,
    decreases k,
{
    if k > 0 {
        lemma_power_of_two_positive((k - 1) as nat);
    }
}

/// Powers of two multiply as their exponents add.
pub proof fn lemma_power_of_two_adds(a: nat, b: nat)
    ensures
        power_of_two(a + b) == power_of_two(a) * power_of_two(b),
    decreases b,
{
    if b == 0 {
        assert(power_of_two(a) * 1 == power_of_two(a));
    } else {
        lemma_power_of_two_adds(a, (b - 1) as nat);
        let pa = power_of_two(a);
        let pb = power_of_two((b - 1) as nat);
        assert(power_of_two(a + b) == 2 * power_of_two((a + b - 1) as nat));
        assert(2 * (pa * pb) == pa * (2 * pb)) by (nonlinear_arith);
    }
}

/// The powers of two that bound the significand of a binary floating-point
/// number of 64 bits.
pub proof fn lemma_power_of_two_values()
    ensures
        power_of_two(0) == 1,
        power_of_two(52) == 0x10_0000_0000_0000,
        power_of_two(53) == 0x20_0000_0000_0000,
{
    reveal_with_fuel(power_of_two, 54);
}

/// A natural number of arbitrary size.
#[derive(Debug)]
pub struct BigNat {
    limbs: Vec<u32>,
}

impl View for BigNat {
    type V = nat;

    closed spec fn view(&self) -> nat {
        limbs_value(self.limbs@)
    }
}

impl BigNat {
    /// The limbs, least significant first.
    pub closed spec fn spec_limbs(&self) -> Seq<u32> {
        self.limbs@
    }

    /// The number zero.
    pub fn zero() -> (r: BigNat)
        ensures
            r@ == 0,
    {
        BigNat { limbs: Vec::new() }
    }

    /// The number `x`.
    pub fn from_u64(x: u64) -> (r: BigNat)
        ensures
            r@ == x,
    {
        let low: u32 = (x % LIMB_RADIX) as u32;
        let high: u32 = (x / LIMB_RADIX) as u32;
        let mut limbs: Vec<u32> = Vec::new();
        limbs.push(low);
        limbs.push(high);
        proof {
            let s0 = Seq::<u32>::empty();
            lemma_value_push(s0, low);
            lemma_value_push(s0.push(low), high);
            assert(limbs@ =~= s0.push(low).push(high));
            assert(limbs_value(s0) == 0);
            assert(limb_weight(0) == 1);
            assert(limb_weight(1) == limb_base() * limb_weight(0));
            assert(low as nat * limb_weight(0) == low) by (nonlinear_arith)
                requires
                    limb_weight(0) == 1,
            ;
            assert(high as nat * limb_weight(1) == high * limb_base()) by (nonlinear_arith)
                requires
                    limb_weight(1) == limb_base(),
            ;
        }
        BigNat { limbs }
    }

    /// Two to the power `k`.
    pub fn power_of_two(k: u16) -> (r: BigNat)
        ensures
            r@ == power_of_two(k as nat),
    {
        let mut out = BigNat::from_u64(1);
        let mut i: u16 = 0;
        while i < k
            invariant
                i <= k,
                out@ == power_of_two(i as nat),
            decreases k - i,
        {
            out = out.add(&out);
            i += 1;
        }
        out
    }

    /// The sum of two numbers.
    pub fn add(&self, other: &BigNat) -> (r: BigNat)
        ensures
            r@ == self@ + other@,
    {
        let n: usize = if self.limbs.len() >= other.limbs.len() {
            self.limbs.len()
        } else {
            other.limbs.len()
        };
        let mut out: Vec<u32> = Vec::new();
        let mut carry: u64 = 0;
        let mut i: usize = 0;
        proof {
            lemma_prefix_zero(self.limbs@);
            lemma_prefix_zero(other.limbs@);
        }
        while i < n
            invariant
                i <= n,
                n >= self.limbs.len(),
                n >= other.limbs.len(),
                out@.len() == i,
                carry <= 1,
                limbs_value(out@) + carry * limb_weight(i as nat) == prefix_value(
                    self.limbs@,
                    i as nat,
                ) + prefix_value(other.limbs@, i as nat),
            decreases n - i,
        {
            let a: u64 = if i < self.limbs.len() {
                self.limbs[i] as u64
            } else {
                0
            };
            let b: u64 = if i < other.limbs.len() {
                other.limbs[i] as u64
            } else {
                0
            };
            let sum: u64 = a + b + carry;
            let low: u32 = (sum % LIMB_RADIX) as u32;
            let high: u64 = sum / LIMB_RADIX;
            proof {
                let w = limb_weight(i as nat);
                lemma_value_push(out@, low);
                lemma_prefix_step(self.limbs@, i as nat);
                lemma_prefix_step(other.limbs@, i as nat);
                assert(limb_weight((i + 1) as nat) == limb_base() * w);
                assert(low * w + high * (limb_base() * w) == a * w + b * w + carry * w)
                    by (nonlinear_arith)
                    requires
                        low + high * limb_base() == a + b + carry,
                ;
            }
            out.push(low);
            carry = high;
            i += 1;
        }
        if carry > 0 {
            proof {
                lemma_value_push(out@, carry as u32);
            }
            out.push(carry as u32);
        }
        BigNat { limbs: out }
    }
    /// The difference of the two numbers modulo the weight of their longer length,
    /// and whether the subtraction borrowed, which it does when `self` is the smaller.
    fn sub_with_borrow(&self, other: &BigNat) -> (r: (BigNat, bool))
        ensures
            r.1 <==> self@ < other@,
            !r.1 ==> r.0@ == self@ - other@,
    {
        let n: usize = if self.limbs.len() >= other.limbs.len() {
            self.limbs.len()
        } else {
            other.limbs.len()
        };
        let mut out: Vec<u32> = Vec::new();
        let mut borrow: u64 = 0;
        let mut i: usize = 0;
        proof {
            lemma_prefix_zero(self.limbs@);
            lemma_prefix_zero(other.limbs@);
        }
        while i < n
            invariant
                i <= n,
                n >= self.limbs.len(),
                n >= other.limbs.len(),
                out@.len() == i,
                borrow <= 1,
                limbs_value(out@) + prefix_value(other.limbs@, i as nat) == prefix_value(
                    self.limbs@,
                    i as nat,
                ) + borrow * limb_weight(i as nat),
            decreases n - i,
        {
            let a: u64 = if i < self.limbs.len() {
                self.limbs[i] as u64
            } else {
                0
            };
            let b: u64 = if i < other.limbs.len() {
                other.limbs[i] as u64
            } else {
                0
            };
            let t: u64 = a + LIMB_RADIX - b - borrow;
            let low: u32 = (t % LIMB_RADIX) as u32;
            let next: u64 = 1 - t / LIMB_RADIX;
            proof {
                let w = limb_weight(i as nat);
                lemma_value_push(out@, low);
                lemma_prefix_step(self.limbs@, i as nat);
                lemma_prefix_step(other.limbs@, i as nat);
                assert(limb_weight((i + 1) as nat) == limb_base() * w);
                assert(low * w + b * w + borrow * w == a * w + next * (limb_base() * w))
                    by (nonlinear_arith)
                    requires
                        low + b + borrow == a + next * limb_base(),
                ;
            }
            out.push(low);
            borrow = next;
            i += 1;
        }
        proof {
            lemma_value_bound(out@);
        }
        (BigNat { limbs: out }, borrow == 1)
    }

    /// Whether `self` is strictly smaller than `other`.
    pub fn less_than(&self, other: &BigNat) -> (r: bool)
        ensures
            r == (self@ < other@),
    {
        let (_, borrow) = self.sub_with_borrow(other);
        borrow
    }

    /// Whether the two numbers are equal.
    pub fn equals(&self, other: &BigNat) -> (r: bool)
        ensures
            r == (self@ == other@),
    {
        !self.less_than(other) && !other.less_than(self)
    }

    /// The difference `self - other`, where `other` is not the greater.
    pub fn checked_sub(&self, other: &BigNat) -> (r: Option<BigNat>)
        ensures
            r.is_some() <==> self@ >= other@,
            r.is_some() ==> r.unwrap()@ == self@ - other@,
    {
        let (diff, borrow) = self.sub_with_borrow(other);
        if borrow {
            None
        } else {
            Some(diff)
        }
    }

    /// Whether the number is zero.
    pub fn is_zero(&self) -> (r: bool)
        ensures
            r == (self@ == 0),
    {
        let mut i: usize = 0;
        proof {
            lemma_zero_limbs(self.limbs@);
        }
        while i < self.limbs.len()
            invariant
                i <= self.limbs.len(),
                forall|k: int| 0 <= k < i ==> self.limbs@[k] == 0,
                limbs_value(self.limbs@) == 0 <==> (forall|k: int|
                    0 <= k < self.limbs@.len() ==> self.limbs@[k] == 0),
            decreases self.limbs.len() - i,
        {
            if self.limbs[i] != 0 {
                return false;
            }
            i += 1;
        }
        true
    }

    /// The product of `self`, one limb `m` and the weight of position `shift`.
    fn mul_limb(&self, m: u32, shift: usize) -> (r: BigNat)
        ensures
            r@ == self@ * m * limb_weight(shift as nat),
    {
        let mut out: Vec<u32> = Vec::new();
        let mut z: usize = 0;
        while z < shift
            invariant
                z <= shift,
                out@.len() == z,
                limbs_value(out@) == 0,
            decreases shift - z,
        {
            proof {
                lemma_value_push(out@, 0);
            }
            out.push(0);
            z += 1;
        }
        let mut carry: u64 = 0;
        let mut i: usize = 0;
        proof {
            lemma_prefix_zero(self.limbs@);
            assert(0 * m * limb_weight(shift as nat) == 0) by (nonlinear_arith);
        }
        while i < self.limbs.len()
            invariant
                i <= self.limbs.len(),
                out@.len() == shift + i,
                carry < LIMB_RADIX,
                limbs_value(out@) + carry * limb_weight((shift + i) as nat) == prefix_value(
                    self.limbs@,
                    i as nat,
                ) * m * limb_weight(shift as nat),
            decreases self.limbs.len() - i,
        {
            let a: u64 = self.limbs[i] as u64;
            assert(a * m <= 0xffff_ffff * 0xffff_ffff) by (nonlinear_arith)
                requires
                    a <= 0xffff_ffff,
                    m <= 0xffff_ffff,
            ;
            let prod: u64 = a * (m as u64) + carry;
            let low: u32 = (prod % LIMB_RADIX) as u32;
            let high: u64 = prod / LIMB_RADIX;
            proof {
                let ws = limb_weight(shift as nat);
                let wi = limb_weight(i as nat);
                let w = limb_weight((shift + i) as nat);
                let pre = prefix_value(self.limbs@, i as nat);
                lemma_value_push(out@, low);
                lemma_prefix_step(self.limbs@, i as nat);
                lemma_weight_adds(shift as nat, i as nat);
                assert(limb_weight((shift + i + 1) as nat) == limb_base() * w);
                assert(low * w + high * (limb_base() * w) == a * m * w + carry * w)
                    by (nonlinear_arith)
                    requires
                        low + high * limb_base() == a * m + carry,
                ;
                assert((pre + a * wi) * m * ws == pre * m * ws + a * m * w) by (nonlinear_arith)
                    requires
                        w == ws * wi,
                ;
            }
            out.push(low);
            carry = high;
            i += 1;
        }
        if carry > 0 {
            proof {
                lemma_value_push(out@, carry as u32);
            }
            out.push(carry as u32);
        }
        BigNat { limbs: out }
    }

    /// The greatest `m` with `other * m <= self`, where it is below 2^53.
    pub fn small_quotient(&self, other: &BigNat) -> (m: u64)
        requires
            self@ < other@ * 0x20_0000_0000_0000,
        ensures
            other@ * m <= self@,
            self@ < other@ * (m + 1),
            m < 0x20_0000_0000_0000,
    {
        let mut m: u64 = 0;
        let mut width: u64 = 0x20_0000_0000_0000;
        let mut j: u32 = 53;
        proof {
            lemma_power_of_two_values();
            assert(other@ * 0 == 0);
        }
        while j > 0
            invariant
                j <= 53,
                width == power_of_two(j as nat),
                m + width <= 0x20_0000_0000_0000,
                other@ * m <= self@,
                self@ < other@ * (m + width),
            decreases j,
        {
            j = j - 1;
            width = width / 2;
            let reach = m + width;
            if !self.less_than(&other.mul(&BigNat::from_u64(reach))) {
                m = reach;
            }
        }
        m
    }

    /// The product of two numbers.
    pub fn mul(&self, other: &BigNat) -> (r: BigNat)
        ensures
            r@ == self@ * other@,
    {
        let mut acc = BigNat::zero();
        let mut j: usize = 0;
        proof {
            lemma_prefix_zero(other.limbs@);
            assert(self@ * 0 == 0);
        }
        while j < other.limbs.len()
            invariant
                j <= other.limbs.len(),
                acc@ == self@ * prefix_value(other.limbs@, j as nat),
            decreases other.limbs.len() - j,
        {
            let term = self.mul_limb(other.limbs[j], j);
            proof {
                let pre = prefix_value(other.limbs@, j as nat);
                let b = other.limbs@[j as int] as nat;
                let w = limb_weight(j as nat);
                lemma_prefix_step(other.limbs@, j as nat);
                assert(self@ * pre + self@ * b * w == self@ * (pre + b * w)) by (nonlinear_arith);
            }
            acc = acc.add(&term);
            j += 1;
        }
        acc
    }

    /// A copy of the number.
    pub fn duplicate(&self) -> (r: BigNat)
        ensures
            r@ == self@,
    {
        let limbs = self.limbs.clone();
        assert(limbs@ =~= self.limbs@);
        BigNat { limbs }
    }

    /// The number that the given limbs denote, least significant first.
    pub fn from_limbs(limbs: Vec<u32>) -> (r: BigNat)
        ensures
            r@ == limbs_value(limbs@),
            r.spec_limbs() == limbs@,
    {
        BigNat { limbs }
    }

    /// The limbs of the number, least significant first.
    pub fn to_limbs(&self) -> (r: Vec<u32>)
        ensures
            r@ == self.spec_limbs(),
            limbs_value(r@) == self@,
    {
        let limbs = self.limbs.clone();
        assert(limbs@ =~= self.limbs@);
        limbs
    }
}

} // verus!
