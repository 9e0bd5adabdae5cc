//! Natural numbers of any size, for exact decimal arithmetic.

use vstd::prelude::*;

verus! {

/// The weight of limb `i`: two to the power of thirty-two times `i`.
pub open spec fn weight(i: nat) -> nat
    decreases i,
{
    if i == 0 {
        1
    } else {
        0x1_0000_0000 * weight((i - 1) as nat)
    }
}

/// The number that little-endian limbs denote.
pub open spec fn limbs_value(limbs: Seq<u32>) -> nat
    decreases limbs.len(),
{
    if limbs.len() == 0 {
        0
    } else {
        limbs_value(limbs.drop_last()) + limbs.last() as nat * weight((limbs.len() - 1) as nat)
    }
}

/// A natural number.
pub struct BigNat {
    limbs: Vec<u32>,
}

impl View for BigNat {
    type V = nat;

    closed spec fn view(&self) -> nat {
        limbs_value(self.limbs@)
    }
}

proof fn limbs_below_weight(limbs: Seq<u32>)
    ensures
        limbs_value(limbs) < weight(limbs.len()),
    decreases limbs.len(),
{
    if limbs.len() > 0 {
        limbs_below_weight(limbs.drop_last());
        let w = weight((limbs.len() - 1) as nat);
        let v = limbs_value(limbs.drop_last());
        let top = limbs.last() as nat;
        assert(v + top * w < 0x1_0000_0000 * w) by (nonlinear_arith)
            requires
                v < w,
                top < 0x1_0000_0000,
        ;
    }
}

proof fn take_step(limbs: Seq<u32>, i: int)
    requires
        0 <= i < limbs.len(),
    ensures
        limbs_value(limbs.take(i + 1)) == limbs_value(limbs.take(i)) + limbs[i] as nat * weight(
            i as nat,
        ),
{
    assert(limbs.take(i + 1).drop_last() =~= limbs.take(i));
}

impl BigNat {
    /// A small number.
    pub fn new(n: u32) -> (r: BigNat)
        ensures
            r@ == n,
    {
        let mut limbs: Vec<u32> = Vec::new();
        limbs.push(n);
        proof {
            assert(limbs@.drop_last() =~= Seq::empty());
            assert(limbs_value(limbs@.drop_last()) == 0);
            assert(n as nat * weight(0) == n) by (nonlinear_arith)
                requires
                    weight(0) == 1,
            ;
        }
        BigNat { limbs }
    }

    /// The same number again.
    pub fn copy(&self) -> (r: BigNat)
        ensures
            r@ == self@,
    {
        let limbs = self.limbs.clone();
        proof {
            assert(limbs@ =~= self.limbs@);
        }
        BigNat { limbs }
    }

    /// Multiplies by `factor` and adds `term`.
    pub fn scale_up(&mut self, factor: u32, term: u32)
        ensures
            final(self)@ == old(self)@ * factor + term,
    {
        let ghost before = self.limbs@;
        let size = self.limbs.len();
        let mut out: Vec<u32> = Vec::new();
        let mut carry: u32 = term;
        let mut i: usize = 0;
        proof {
            assert(before.take(0) =~= Seq::empty());
            assert(0 * factor == 0) by (nonlinear_arith);
            assert(carry * weight(0) == carry) by (nonlinear_arith)
                requires
                    weight(0) == 1,
            ;
        }
        while i < size
            invariant
                i <= size,
                size == before.len(),
                self.limbs@ == before,
                out@.len() == i,
                limbs_value(out@) + carry * weight(i as nat) == limbs_value(before.take(i as int))
                    * factor + term,
            decreases size - i,
        {
            let limb = self.limbs[i];
            proof {
                assert(limb * factor + carry <= u64::MAX) by (nonlinear_arith)
                    requires
                        limb <= u32::MAX,
                        factor <= u32::MAX,
                        carry <= u32::MAX,
                ;
                assert(limb * factor >= 0) by (nonlinear_arith);
            }
            let total: u64 = (limb as u64) * (factor as u64) + (carry as u64);
            let low: u32 = (total % 0x1_0000_0000) as u32;
            let high: u32 = (total / 0x1_0000_0000) as u32;
            let ghost filled = out@;
            out.push(low);
            proof {
                let w = weight(i as nat);
                let v = limbs_value(filled);
                let b = limbs_value(before.take(i as int));
                assert(out@.drop_last() =~= filled);
                take_step(before, i as int);
                assert(v + low * w + high * (0x1_0000_0000 * w) == (b + limb * w) * factor + term)
                    by (nonlinear_arith)
                    requires
                        v + carry * w == b * factor + term,
                        low + high * 0x1_0000_0000 == limb * factor + carry,
                ;
            }
            carry = high;
            i = i + 1;
        }
        let ghost filled = out@;
        proof {
            assert(before.take(size as int) =~= before);
        }
        if carry != 0 {
            out.push(carry);
            proof {
                assert(out@.drop_last() =~= filled);
            }
        } else {
            proof {
                assert(0 * weight(size as nat) == 0) by (nonlinear_arith);
            }
        }
        self.limbs = out;
    }

    /// Appends zero limbs until there are at least `size`.
    fn pad(&mut self, size: usize)
        ensures
            final(self)@ == old(self)@,
            final(self).limbs@.len() >= size,
            final(self).limbs@.len() == old(self).limbs@.len() || final(self).limbs@.len() == size,
    {
        let ghost start = self@;
        let ghost first = self.limbs@.len();
        while self.limbs.len() < size
            invariant
                self@ == start,
                self.limbs@.len() == first || self.limbs@.len() <= size,
            decreases size - self.limbs.len(),
        {
            let ghost before = self.limbs@;
            self.limbs.push(0);
            proof {
                assert(self.limbs@.drop_last() =~= before);
                assert(0 * weight(before.len()) == 0) by (nonlinear_arith);
            }
        }
    }

    /// Gives two numbers the same count of limbs.
    fn align(&mut self, other: &mut BigNat)
        ensures
            final(self)@ == old(self)@,
            final(other)@ == old(other)@,
            final(self).limbs@.len() == final(other).limbs@.len(),
    {
        let a = self.limbs.len();
        let b = other.limbs.len();
        if a < b {
            self.pad(b);
        } else {
            other.pad(a);
        }
    }

    /// Whether this number is at least `other`. Both keep their values.
    pub fn reaches(&mut self, other: &mut BigNat) -> (r: bool)
        ensures
            final(self)@ == old(self)@,
            final(other)@ == old(other)@,
            r == (old(self)@ >= old(other)@),
    {
        self.align(other);
        let mut i: usize = self.limbs.len();
        proof {
            assert(self.limbs@.take(i as int) =~= self.limbs@);
            assert(other.limbs@.take(i as int) =~= other.limbs@);
        }
        while i > 0
            invariant
                i <= self.limbs@.len(),
                self.limbs@.len() == other.limbs@.len(),
                self@ == old(self)@,
                other@ == old(other)@,
                self@ >= other@ <==> limbs_value(self.limbs@.take(i as int)) >= limbs_value(
                    other.limbs@.take(i as int),
                ),
            decreases i,
        {
            let a = self.limbs[i - 1];
            let b = other.limbs[i - 1];
            proof {
                let w = weight((i - 1) as nat);
                let lower_a = limbs_value(self.limbs@.take(i as int - 1));
                let lower_b = limbs_value(other.limbs@.take(i as int - 1));
                take_step(self.limbs@, i as int - 1);
                take_step(other.limbs@, i as int - 1);
                limbs_below_weight(self.limbs@.take(i as int - 1));
                limbs_below_weight(other.limbs@.take(i as int - 1));
                if a > b {
                    assert(lower_a + a * w > lower_b + b * w) by (nonlinear_arith)
                        requires
                            a >= b + 1,
                            lower_b < w,
                            lower_a >= 0,
                    ;
                }
                if b > a {
                    assert(lower_b + b * w > lower_a + a * w) by (nonlinear_arith)
                        requires
                            b >= a + 1,
                            lower_a < w,
                            lower_b >= 0,
                    ;
                }
            }
            if a > b {
                return true;
            }
            if b > a {
                return false;
            }
            i = i - 1;
        }
        proof {
            assert(self.limbs@.take(0) =~= Seq::empty());
            assert(other.limbs@.take(0) =~= Seq::empty());
        }
        true
    }

    /// Subtracts `other`, which is at most this number.
    pub fn reduce(&mut self, other: &mut BigNat)
        requires
            old(self)@ >= old(other)@,
        ensures
            final(self)@ == old(self)@ - old(other)@,
            final(other)@ == old(other)@,
    {
        self.align(other);
        let ghost left = self.limbs@;
        let ghost right = other.limbs@;
        let size = self.limbs.len();
        let mut out: Vec<u32> = Vec::new();
        let mut borrow: u32 = 0;
        let mut i: usize = 0;
        proof {
            assert(left.take(0) =~= Seq::empty());
            assert(right.take(0) =~= Seq::empty());
            assert(0 * weight(0) == 0) by (nonlinear_arith);
        }
        while i < size
            invariant
                i <= size,
                size == left.len(),
                size == right.len(),
                self.limbs@ == left,
                other.limbs@ == right,
                borrow <= 1,
                out@.len() == i,
                limbs_value(out@) + limbs_value(right.take(i as int)) == limbs_value(
                    left.take(i as int),
                ) + borrow * weight(i as nat),
            decreases size - i,
        {
            let a = self.limbs[i] as u64;
            let b = other.limbs[i] as u64 + borrow as u64;
            let ghost filled = out@;
            let digit: u32;
            let next: u32;
            if a >= b {
                digit = (a - b) as u32;
                next = 0;
            } else {
                digit = (a + 0x1_0000_0000 - b) as u32;
                next = 1;
            }
            out.push(digit);
            proof {
                let w = weight(i as nat);
                let v = limbs_value(filled);
                let l = limbs_value(left.take(i as int));
                let r = limbs_value(right.take(i as int));
                let x = left[i as int];
                let y = right[i as int];
                assert(out@.drop_last() =~= filled);
                take_step(left, i as int);
                take_step(right, i as int);
                assert((v + digit * w) + (r + y * w) == (l + x * w) + next * (0x1_0000_0000 * w))
                    by (nonlinear_arith)
                    requires
                        v + r == l + borrow * w,
                        digit + y + borrow == x + next * 0x1_0000_0000,
                ;
            }
            borrow = next;
            i = i + 1;
        }
        proof {
            assert(left.take(size as int) =~= left);
            assert(right.take(size as int) =~= right);
            limbs_below_weight(out@);
            let w = weight(size as nat);
            assert(borrow == 0) by (nonlinear_arith)
                requires
                    borrow <= 1,
                    limbs_value(out@) < w,
                    limbs_value(out@) + limbs_value(right) == limbs_value(left) + borrow * w,
                    limbs_value(left) >= limbs_value(right),
            ;
            assert(0 * w == 0) by (nonlinear_arith);
        }
        self.limbs = out;
    }
}

} // verus!
