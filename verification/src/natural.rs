//! Natural numbers of any size, for the exact comparison of large products.

use vstd::prelude::*;

verus! {

/// The base of the limb representation, as a `u128` constant.
pub const LIMB_RADIX: u128 = 0x1_0000_0000_0000_0000;

/// The weight of the limb at position `i`: the radix to the power `i`.
pub open spec fn weight(i: nat) -> nat
    decreases i,
{
    if i == 0 {
        1
    } else {
        0x1_0000_0000_0000_0000 * weight((i - 1) as nat)
    }
}

/// The number that `limbs` spell, least significant limb first.
pub open spec fn limbs_value(limbs: Seq<u64>) -> nat
    decreases limbs.len(),
{
    if limbs.len() == 0 {
        0
    } else {
        limbs_value(limbs.drop_last()) + limbs.last() as nat * weight((limbs.len() - 1) as nat)
    }
}

/// Appending a limb adds it at the weight of its position.
proof fn lemma_value_push(limbs: Seq<u64>, top: u64)
    ensures
        limbs_value(limbs.push(top)) == limbs_value(limbs) + top as nat * weight(limbs.len()),
{
    assert(limbs.push(top).drop_last() =~= limbs);
}

/// The value of the first `i + 1` limbs is that of the first `i` plus limb
/// `i` at its weight.
proof fn lemma_value_take_next(limbs: Seq<u64>, i: int)
    requires
        0 <= i < limbs.len(),
    ensures
        limbs_value(limbs.take(i + 1)) == limbs_value(limbs.take(i)) + limbs[i] as nat * weight(
            i as nat,
        ),
{
    assert(limbs.take(i + 1).drop_last() =~= limbs.take(i));
}

/// A number spelled with `n` limbs is below the weight of position `n`.
proof fn lemma_value_below_weight(limbs: Seq<u64>)
    ensures
        limbs_value(limbs) < weight(limbs.len()),
    decreases limbs.len(),
{
    if limbs.len() > 0 {
        let n = (limbs.len() - 1) as nat;
        lemma_value_below_weight(limbs.drop_last());
        let w = weight(n);
        let top = limbs.last() as nat;
        assert(top * w <= 0xFFFF_FFFF_FFFF_FFFF * w) by (nonlinear_arith)
            requires
                top <= 0xFFFF_FFFF_FFFF_FFFF,
        ;
    }
}

/// A number whose top limb is not zero is at least the weight of that
/// limb's position.
proof fn lemma_value_at_least_top_weight(limbs: Seq<u64>)
    requires
        limbs.len() > 0,
        limbs.last() != 0,
    ensures
        limbs_value(limbs) >= weight((limbs.len() - 1) as nat),
{
    let w = weight((limbs.len() - 1) as nat);
    let top = limbs.last() as nat;
    assert(top * w >= w) by (nonlinear_arith)
        requires
            top >= 1,
    ;
}

/// A natural number of any size.
pub struct Natural {
    limbs: Vec<u64>,
}

impl View for Natural {
    type V = nat;

    /// The number itself.
    closed spec fn view(&self) -> nat {
        limbs_value(self.limbs@)
    }
}

impl Natural {
    #[verifier::type_invariant]
    closed spec fn inv(self) -> bool {
        self.limbs@.len() == 0 || self.limbs@.last() != 0
    }

    /// The number `x`.
    pub fn from_u64(x: u64) -> (r: Natural)
        ensures
            r@ == x,
    {
        let mut limbs: Vec<u64> = Vec::new();
        if x != 0 {
            limbs.push(x);
            proof {
                lemma_value_push(Seq::<u64>::empty(), x);
                assert(limbs@ =~= Seq::<u64>::empty().push(x));
                let w = weight(0);
                assert(x as nat * w == x) by (nonlinear_arith)
                    requires
                        w == 1,
                ;
            }
        }
        Natural { limbs }
    }

    /// The product of this number and `x`.
    pub fn mul_small(&self, x: u64) -> (r: Natural)
        ensures
            r@ == self@ * x,
    {
        proof {
            use_type_invariant(self);
        }
        if x == 0 {
            return Natural { limbs: Vec::new() };
        }
        let n: usize = self.limbs.len();
        let mut out: Vec<u64> = Vec::new();
        let mut carry: u64 = 0;
        let mut i: usize = 0;
        proof {
            assert(self.limbs@.take(0) =~= Seq::<u64>::empty());
            let w = weight(0);
            let nothing = limbs_value(self.limbs@.take(0));
            assert(carry as nat * w == 0 && nothing * x == 0) by (nonlinear_arith)
                requires
                    carry == 0,
                    nothing == 0,
            ;
        }
        while i < n
            invariant
                n == self.limbs.len(),
                i <= n,
                x >= 1,
                out.len() == i,
                limbs_value(out@) + carry as nat * weight(i as nat) == limbs_value(
                    self.limbs@.take(i as int),
                ) * x,
                i > 0 && self.limbs[i - 1] != 0 ==> carry != 0 || out[i - 1] != 0,
            decreases n - i,
        {
            let limb: u64 = self.limbs[i];
            assert(limb as u128 * x as u128 + carry as u128 <= 0xFFFF_FFFF_FFFF_FFFF
                * 0x1_0000_0000_0000_0000) by (nonlinear_arith)
                requires
                    limb <= 0xFFFF_FFFF_FFFF_FFFF,
                    x <= 0xFFFF_FFFF_FFFF_FFFF,
                    carry <= 0xFFFF_FFFF_FFFF_FFFF,
            ;
            let total: u128 = limb as u128 * x as u128 + carry as u128;
            let low: u64 = (total % LIMB_RADIX) as u64;
            let high: u64 = (total / LIMB_RADIX) as u64;
            proof {
                let w = weight(i as nat);
                let before = limbs_value(self.limbs@.take(i as int));
                lemma_value_push(out@, low);
                lemma_value_take_next(self.limbs@, i as int);
                assert(weight((i + 1) as nat) == 0x1_0000_0000_0000_0000 * w);
                assert(total == high * 0x1_0000_0000_0000_0000 + low);
                assert(low as nat * w + high as nat * (0x1_0000_0000_0000_0000 * w) == (limb as nat
                    * x as nat + carry as nat) * w) by (nonlinear_arith)
                    requires
                        limb as nat * x as nat + carry as nat == high as nat
                            * 0x1_0000_0000_0000_0000 + low as nat,
                ;
                assert((before + limb as nat * w) * x == before * x + (limb as nat * x as nat) * w)
                    by (nonlinear_arith);
                assert((limb as nat * x as nat + carry as nat) * w == (limb as nat * x as nat) * w
                    + carry as nat * w) by (nonlinear_arith);
                if limb != 0 {
                    assert(limb as nat * x as nat >= 1) by (nonlinear_arith)
                        requires
                            limb >= 1,
                            x >= 1,
                    ;
                }
            }
            out.push(low);
            carry = high;
            i += 1;
        }
        proof {
            assert(self.limbs@.take(n as int) =~= self.limbs@);
        }
        if carry != 0 {
            proof {
                lemma_value_push(out@, carry);
            }
            out.push(carry);
        }
        Natural { limbs: out }
    }

    /// Whether this number is at most `other`.
    pub fn le(&self, other: &Natural) -> (b: bool)
        ensures
            b == (self@ <= other@),
    {
        proof {
            use_type_invariant(self);
            use_type_invariant(other);
            lemma_value_below_weight(self.limbs@);
            lemma_value_below_weight(other.limbs@);
        }
        let n: usize = self.limbs.len();
        if n != other.limbs.len() {
            proof {
                if n < other.limbs.len() {
                    lemma_value_at_least_top_weight(other.limbs@);
                    lemma_weight_monotone(n as nat, (other.limbs.len() - 1) as nat);
                } else {
                    lemma_value_at_least_top_weight(self.limbs@);
                    lemma_weight_monotone(other.limbs@.len(), (n - 1) as nat);
                }
            }
            return n < other.limbs.len();
        }
        let mut i: usize = n;
        proof {
            assert(self.limbs@.take(n as int) =~= self.limbs@);
            assert(other.limbs@.take(n as int) =~= other.limbs@);
        }
        while i > 0
            invariant
                n == self.limbs.len(),
                n == other.limbs.len(),
                i <= n,
                (self@ <= other@) == (limbs_value(self.limbs@.take(i as int)) <= limbs_value(
                    other.limbs@.take(i as int),
                )),
            decreases i,
        {
            i -= 1;
            let mine: u64 = self.limbs[i];
            let theirs: u64 = other.limbs[i];
            proof {
                let w = weight(i as nat);
                lemma_value_take_next(self.limbs@, i as int);
                lemma_value_take_next(other.limbs@, i as int);
                lemma_value_below_weight(self.limbs@.take(i as int));
                lemma_value_below_weight(other.limbs@.take(i as int));
                if mine < theirs {
                    assert(theirs as nat * w >= mine as nat * w + w) by (nonlinear_arith)
                        requires
                            theirs >= mine + 1,
                    ;
                } else if mine > theirs {
                    assert(mine as nat * w >= theirs as nat * w + w) by (nonlinear_arith)
                        requires
                            mine >= theirs + 1,
                    ;
                }
            }
            if mine < theirs {
                return true;
            }
            if mine > theirs {
                return false;
            }
        }
        proof {
            assert(self.limbs@.take(0) =~= other.limbs@.take(0));
        }
        true
    }
}

/// Weights grow with the position.
proof fn lemma_weight_monotone(i: nat, j: nat)
    requires
        i <= j,
    ensures
        weight(i) <= weight(j),
    decreases j,
{
    if i < j {
        lemma_weight_monotone(i, (j - 1) as nat);
    }
}

} // verus!
