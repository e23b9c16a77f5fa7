//! Unsigned 256-bit keys, held as two 128-bit halves.
use vstd::prelude::*;
use vstd::arithmetic::div_mod::{
    lemma_add_mod_noop, lemma_mod_add_multiples_vanish, lemma_small_mod,
};

verus! {

/// 2^128 as a mathematical integer.
pub open spec fn half_base() -> nat {
    0x1_0000_0000_0000_0000_0000_0000_0000_0000nat
}

/// 2^256, one past the largest key.
pub open spec fn key_bound() -> nat {
    half_base() * half_base()
}

/// An unsigned 256-bit integer: `hi * 2^128 + lo`.
#[derive(Clone, Copy, Debug, PartialEq, Eq, Hash)]
pub struct U256 {
    pub hi: u128,
    pub lo: u128,
}

impl View for U256 {
    type V = nat;

    open spec fn view(&self) -> nat {
        self.hi as nat * half_base() + self.lo as nat
    }
}

proof fn lemma_view_bounds(k: U256)
    ensures
        k@ < key_bound(),
        k@ >= k.hi as nat * half_base(),
        k@ < (k.hi as nat + 1) * half_base(),
{
    assert(k.hi as nat * half_base() <= (u128::MAX as nat) * half_base()) by (nonlinear_arith)
        requires
            k.hi <= u128::MAX,
    ;
}

/// Two keys with the same value are the same key.
proof fn lemma_view_injective(a: U256, b: U256)
    requires
        a@ == b@,
    ensures
        a == b,
{
    lemma_view_bounds(a);
    lemma_view_bounds(b);
    if a.hi < b.hi {
        assert((a.hi as nat + 1) * half_base() <= b.hi as nat * half_base()) by (nonlinear_arith)
            requires
                a.hi < b.hi,
        ;
    } else if b.hi < a.hi {
        assert((b.hi as nat + 1) * half_base() <= a.hi as nat * half_base()) by (nonlinear_arith)
            requires
                b.hi < a.hi,
        ;
    }
}

/// A key below 2^128 lies in its low half.
pub proof fn lemma_small_is_low_half(k: U256)
    requires
        k@ < half_base(),
    ensures
        k.hi == 0,
        k@ == k.lo,
{
    if k.hi > 0 {
        assert(k.hi as nat * half_base() >= half_base()) by (nonlinear_arith)
            requires
                k.hi >= 1,
        ;
    }
}

/// Comparing halves lexicographically compares the values.
proof fn lemma_order(a: U256, b: U256)
    ensures
        (a@ < b@) == (a.hi < b.hi || (a.hi == b.hi && a.lo < b.lo)),
{
    lemma_view_bounds(a);
    lemma_view_bounds(b);
    if a.hi < b.hi {
        assert((a.hi as nat + 1) * half_base() <= b.hi as nat * half_base()) by (nonlinear_arith)
            requires
                a.hi < b.hi,
        ;
    } else if b.hi < a.hi {
        assert((b.hi as nat + 1) * half_base() <= a.hi as nat * half_base()) by (nonlinear_arith)
            requires
                b.hi < a.hi,
        ;
    }
}

impl U256 {
    pub fn zero() -> (r: U256)
        ensures
            r@ == 0,
    {
        U256 { hi: 0, lo: 0 }
    }

    pub fn from_u128(x: u128) -> (r: U256)
        ensures
            r@ == x as nat,
    {
        U256 { hi: 0, lo: x }
    }

    pub fn from_u64(x: u64) -> (r: U256)
        ensures
            r@ == x as nat,
    {
        U256 { hi: 0, lo: x as u128 }
    }

    pub fn is_zero(&self) -> (r: bool)
        ensures
            r == (self@ == 0),
    {
        self.hi == 0 && self.lo == 0
    }

    pub fn less_than(&self, other: &U256) -> (r: bool)
        ensures
            r == (self@ < other@),
    {
        proof {
            lemma_order(*self, *other);
        }
        self.hi < other.hi || (self.hi == other.hi && self.lo < other.lo)
    }

    pub fn at_most(&self, other: &U256) -> (r: bool)
        ensures
            r == (self@ <= other@),
    {
        !other.less_than(self)
    }

    pub fn equals(&self, other: &U256) -> (r: bool)
        ensures
            r == (self@ == other@),
    {
        proof {
            if self@ == other@ {
                lemma_view_injective(*self, *other);
            }
        }
        self.hi == other.hi && self.lo == other.lo
    }

    /// `self + other`, or `None` when the sum does not fit in 256 bits.
    pub fn checked_add(&self, other: &U256) -> (r: Option<U256>)
        ensures
            r is Some <==> self@ + other@ < key_bound(),
            r matches Some(s) ==> s@ == self@ + other@,
    {
        proof {
            lemma_view_bounds(*self);
            lemma_view_bounds(*other);
        }
        let (lo, carry): (u128, u128) = if self.lo <= u128::MAX - other.lo {
            (self.lo + other.lo, 0)
        } else {
            (other.lo - (u128::MAX - self.lo) - 1, 1)
        };
        if self.hi <= u128::MAX - other.hi && self.hi + other.hi <= u128::MAX - carry {
            Some(U256 { hi: self.hi + other.hi + carry, lo })
        } else {
            proof {
                assert((self.hi as nat + other.hi as nat + carry as nat) * half_base()
                    >= key_bound()) by (nonlinear_arith)
                    requires
                        self.hi as nat + other.hi as nat + carry as nat >= half_base(),
                        key_bound() == half_base() * half_base(),
                ;
            }
            None
        }
    }

    /// `self + other`, for sums known to fit.
    pub fn add(&self, other: &U256) -> (r: U256)
        requires
            self@ + other@ < key_bound(),
        ensures
            r@ == self@ + other@,
    {
        self.checked_add(other).unwrap()
    }

    /// `self - other`, for `other <= self`.
    pub fn sub(&self, other: &U256) -> (r: U256)
        requires
            other@ <= self@,
        ensures
            r@ == self@ - other@,
    {
        proof {
            lemma_order(*self, *other);
        }
        if other.lo <= self.lo {
            U256 { hi: self.hi - other.hi, lo: self.lo - other.lo }
        } else {
            U256 { hi: self.hi - other.hi - 1, lo: u128::MAX - (other.lo - self.lo) + 1 }
        }
    }

    /// `x mod (top + 1)`: `x` placed on the ring of positions `[0, top]`.
    pub fn rem_u64(x: u64, top: &U256) -> (r: U256)
        ensures
            r@ == x as nat % (top@ + 1),
            r@ <= top@,
    {
        proof {
            lemma_view_bounds(*top);
        }
        if top.hi == 0 && top.lo < u128::MAX {
            U256 { hi: 0, lo: (x as u128) % (top.lo + 1) }
        } else {
            proof {
                if top.hi >= 1 {
                    assert(top.hi as nat * half_base() >= half_base()) by (nonlinear_arith)
                        requires
                            top.hi >= 1,
                    ;
                }
                lemma_small_mod(x as nat, top@ + 1);
            }
            U256::from_u64(x)
        }
    }

    /// `(self + other) mod (top + 1)`, for `self` and `other` on the ring `[0, top]`.
    pub fn add_mod(&self, other: &U256, top: &U256) -> (r: U256)
        requires
            self@ <= top@,
            other@ <= top@,
        ensures
            r@ == (self@ + other@) % (top@ + 1),
            r@ <= top@,
    {
        let gap = top.sub(other);
        if self.at_most(&gap) {
            proof {
                lemma_small_mod((self@ + other@) as nat, top@ + 1);
                lemma_view_bounds(*top);
            }
            self.add(other)
        } else {
            proof {
                let d = self@ + other@ - (top@ + 1);
                lemma_small_mod(d as nat, top@ + 1);
                lemma_mod_add_multiples_vanish(d, (top@ + 1) as int);
            }
            self.sub(&gap).sub(&U256::from_u64(1))
        }
    }

    /// `(self - other) mod (top + 1)`: a backward move of `other` from `self`
    /// on the ring `[0, top]`, wrapping below zero to the top.
    pub fn sub_mod(&self, other: &U256, top: &U256) -> (r: U256)
        requires
            self@ <= top@,
            other@ <= top@,
        ensures
            r@ == ((self@ + top@ + 1 - other@) as nat) % (top@ + 1),
            r@ <= top@,
    {
        if other.at_most(self) {
            proof {
                let d = self@ - other@;
                lemma_small_mod(d as nat, top@ + 1);
                lemma_mod_add_multiples_vanish(d, (top@ + 1) as int);
            }
            self.sub(other)
        } else {
            proof {
                lemma_small_mod((self@ + top@ + 1 - other@) as nat, top@ + 1);
            }
            top.sub(&other.sub(self).sub(&U256::from_u64(1)))
        }
    }

    /// `(self * m) mod (top + 1)`, for `self` on the ring `[0, top]`.
    pub fn mul_small_mod(&self, m: u32, top: &U256) -> (r: U256)
        requires
            self@ <= top@,
        ensures
            r@ == (self@ * m as nat) % (top@ + 1),
            r@ <= top@,
    {
        let mut acc = U256::zero();
        let mut i: u32 = 0;
        proof {
            lemma_small_mod(0, top@ + 1);
        }
        while i < m
            invariant
                i <= m,
                self@ <= top@,
                acc@ <= top@,
                acc@ == (self@ * i as nat) % (top@ + 1),
            decreases m - i,
        {
            proof {
                lemma_small_mod(self@, top@ + 1);
                lemma_add_mod_noop(self@ * i, self@ as int, (top@ + 1) as int);
                assert(self@ * i + self@ == self@ * (i + 1)) by (nonlinear_arith);
            }
            acc = acc.add_mod(self, top);
            i = i + 1;
        }
        acc
    }
}

} // verus!
