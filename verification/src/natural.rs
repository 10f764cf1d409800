//! Natural numbers of any size.

use vstd::arithmetic::div_mod::lemma_fundamental_div_mod;
use vstd::prelude::*;

verus! {

/// One more than the largest limb.
pub const LIMB: u128 = 4294967296;

/// The `n`-th power of the limb base.
pub open spec fn limb_power(n: nat) -> nat
    decreases n,
{
    if n == 0 {
        1
    } else {
        LIMB as nat * limb_power((n - 1) as nat)
    }
}

/// The number that limbs stand for, the lowest limb first.
pub open spec fn limbs_value(s: Seq<u32>) -> nat
    decreases s.len(),
{
    if s.len() == 0 {
        0
    } else {
        limbs_value(s.drop_last()) + s.last() as nat * limb_power((s.len() - 1) as nat)
    }
}

/// A natural number of any size.
#[derive(Debug)]
pub struct Natural {
    pub limbs: Vec<u32>,
}

impl View for Natural {
    type V = nat;

    open spec fn view(&self) -> nat {
        limbs_value(self.limbs@)
    }
}

proof fn lemma_limbs_bound(s: Seq<u32>)
    ensures
        limbs_value(s) < limb_power(s.len()),
    decreases s.len(),
{
    if s.len() > 0 {
        lemma_limbs_bound(s.drop_last());
        let p = limb_power((s.len() - 1) as nat);
        let x = s.last() as nat;
        assert(x * p + p <= LIMB as nat * p) by (nonlinear_arith)
            requires
                x + 1 <= LIMB as nat,
        ;
    }
}

proof fn lemma_push_limb(s: Seq<u32>, x: u32)
    ensures
        limbs_value(s.push(x)) == limbs_value(s) + x as nat * limb_power(s.len()),
{
    assert(s.push(x).drop_last() =~= s);
}

/// Brings `v` to at least `n` limbs without changing its value.
fn pad(v: &mut Vec<u32>, n: usize)
    ensures
        limbs_value(final(v)@) == limbs_value(old(v)@),
        final(v)@.len() >= n,
        final(v)@.len() == old(v)@.len() || final(v)@.len() == n,
{
    while v.len() < n
        invariant
            limbs_value(v@) == limbs_value(old(v)@),
            v@.len() == old(v)@.len() || v@.len() <= n,
        decreases n - v@.len(),
    {
        proof {
            lemma_push_limb(v@, 0);
        }
        v.push(0);
    }
}

impl Natural {
    /// Zero.
    pub fn zero() -> (r: Natural)
        ensures
            r@ == 0,
    {
        Natural { limbs: Vec::new() }
    }

    /// One.
    pub fn one() -> (r: Natural)
        ensures
            r@ == 1,
    {
        let mut limbs: Vec<u32> = Vec::new();
        proof {
            lemma_push_limb(limbs@, 1);
        }
        limbs.push(1);
        Natural { limbs }
    }

    /// This number times `m`.
    pub fn times(&self, m: u128) -> (r: Natural)
        requires
            m <= 18446744073709551616,
        ensures
            r@ == self@ * m as nat,
    {
        let mut out: Vec<u32> = Vec::new();
        let mut carry: u128 = 0;
        let mut i: usize = 0;
        let ghost s = self.limbs@;
        proof {
            assert(s.take(0) =~= Seq::<u32>::empty());
            assert(0 * m as nat == 0) by (nonlinear_arith);
        }
        while i < self.limbs.len()
            invariant
                s == self.limbs@,
                i <= s.len(),
                out@.len() == i,
                m <= 18446744073709551616,
                carry <= 18446744073709551616,
                limbs_value(out@) + carry as nat * limb_power(i as nat) == limbs_value(
                    s.take(i as int),
                ) * m as nat,
            decreases s.len() - i,
        {
            let x: u128 = self.limbs[i] as u128;
            proof {
                assert(x * m <= 4294967295 * 18446744073709551616) by (nonlinear_arith)
                    requires
                        x <= 4294967295,
                        m <= 18446744073709551616,
                ;
            }
            let t: u128 = x * m + carry;
            let low: u32 = (t % LIMB) as u32;
            let next: u128 = t / LIMB;
            proof {
                let p = limb_power(i as nat);
                let v = limbs_value(s.take(i as int));
                assert(s.take(i + 1).drop_last() =~= s.take(i as int));
                lemma_push_limb(out@, low);
                lemma_fundamental_div_mod(t as int, LIMB as int);
                assert(t == LIMB * next + low);
                assert(low as nat * p + next as nat * (LIMB as nat * p) == t as nat * p)
                    by (nonlinear_arith)
                    requires
                        t == LIMB * next + low,
                ;
                assert((v + x as nat * p) * m as nat == v * m as nat + (x * m) as nat * p)
                    by (nonlinear_arith);
                assert(t as nat * p == (x * m) as nat * p + carry as nat * p) by (nonlinear_arith)
                    requires
                        t == x * m + carry,
                ;
                assert(limb_power((i + 1) as nat) == LIMB as nat * p);
            }
            out.push(low);
            carry = next;
            i += 1;
        }
        proof {
            assert(s.take(i as int) =~= s);
        }
        while carry > 0
            invariant
                limbs_value(out@) + carry as nat * limb_power(out@.len()) == limbs_value(s)
                    * m as nat,
            decreases carry,
        {
            let low: u32 = (carry % LIMB) as u32;
            let next: u128 = carry / LIMB;
            proof {
                let p = limb_power(out@.len());
                lemma_push_limb(out@, low);
                lemma_fundamental_div_mod(carry as int, LIMB as int);
                assert(low as nat * p + next as nat * (LIMB as nat * p) == carry as nat * p)
                    by (nonlinear_arith)
                    requires
                        carry == LIMB * next + low,
                ;
            }
            out.push(low);
            carry = next;
        }
        proof {
            assert(0 * limb_power(out@.len()) == 0) by (nonlinear_arith);
        }
        Natural { limbs: out }
    }

    /// The sum of two numbers.
    pub fn plus(&self, other: &Natural) -> (r: Natural)
        ensures
            r@ == self@ + other@,
    {
        let mut a = self.limbs.clone();
        let mut b = other.limbs.clone();
        assert(a@ =~= self.limbs@);
        assert(b@ =~= other.limbs@);
        let n: usize = if a.len() > b.len() {
            a.len()
        } else {
            b.len()
        };
        pad(&mut a, n);
        pad(&mut b, n);
        let mut out: Vec<u32> = Vec::new();
        let mut carry: u128 = 0;
        let mut i: usize = 0;
        while i < n
            invariant
                i <= n,
                a@.len() == n,
                b@.len() == n,
                out@.len() == i,
                carry <= 1,
                limbs_value(out@) + carry as nat * limb_power(i as nat) == limbs_value(
                    a@.take(i as int),
                ) + limbs_value(b@.take(i as int)),
            decreases n - i,
        {
            let x: u128 = a[i] as u128;
            let y: u128 = b[i] as u128;
            let t: u128 = x + y + carry;
            let low: u32 = (t % LIMB) as u32;
            let next: u128 = t / LIMB;
            proof {
                let p = limb_power(i as nat);
                assert(a@.take(i + 1).drop_last() =~= a@.take(i as int));
                assert(b@.take(i + 1).drop_last() =~= b@.take(i as int));
                lemma_push_limb(out@, low);
                lemma_fundamental_div_mod(t as int, LIMB as int);
                assert(low as nat * p + next as nat * (LIMB as nat * p) == x as nat * p + y as nat
                    * p + carry as nat * p) by (nonlinear_arith)
                    requires
                        t == LIMB * next + low,
                        t == x + y + carry,
                ;
            }
            out.push(low);
            carry = next;
            i += 1;
        }
        proof {
            assert(a@.take(i as int) =~= a@);
            assert(b@.take(i as int) =~= b@);
            lemma_push_limb(out@, carry as u32);
            assert(carry as u32 as nat == carry as nat);
        }
        out.push(carry as u32);
        Natural { limbs: out }
    }

    /// Whether this number is at least `other`.
    pub fn at_least(&self, other: &Natural) -> (r: bool)
        ensures
            r == (self@ >= other@),
    {
        let mut a = self.limbs.clone();
        let mut b = other.limbs.clone();
        assert(a@ =~= self.limbs@);
        assert(b@ =~= other.limbs@);
        let n: usize = if a.len() > b.len() {
            a.len()
        } else {
            b.len()
        };
        pad(&mut a, n);
        pad(&mut b, n);
        let mut ge: bool = true;
        let mut i: usize = 0;
        while i < n
            invariant
                i <= n,
                a@.len() == n,
                b@.len() == n,
                ge == (limbs_value(a@.take(i as int)) >= limbs_value(b@.take(i as int))),
            decreases n - i,
        {
            proof {
                let p = limb_power(i as nat);
                let x = a@[i as int] as nat;
                let y = b@[i as int] as nat;
                assert(a@.take(i + 1).drop_last() =~= a@.take(i as int));
                assert(b@.take(i + 1).drop_last() =~= b@.take(i as int));
                lemma_limbs_bound(a@.take(i as int));
                lemma_limbs_bound(b@.take(i as int));
                assert(x > y ==> x * p >= y * p + p) by (nonlinear_arith);
                assert(y > x ==> y * p >= x * p + p) by (nonlinear_arith);
            }
            if a[i] > b[i] {
                ge = true;
            } else if a[i] < b[i] {
                ge = false;
            }
            i += 1;
        }
        proof {
            assert(a@.take(i as int) =~= a@);
            assert(b@.take(i as int) =~= b@);
        }
        ge
    }
}

} // verus!
