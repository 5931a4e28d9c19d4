//! Elements of the prime field used by every proof identity.
use vstd::prelude::*;
use vstd::arithmetic::div_mod::{
    lemma_fundamental_div_mod, lemma_mod_bound, lemma_mod_multiples_vanish, lemma_mul_mod_noop_left,
    lemma_mul_mod_noop_right, lemma_small_mod,
};

verus! {

/// The field modulus, the Mersenne prime 2^61 - 1.
pub const MODULUS: u64 = 2305843009213693951;

pub open spec fn fmod(a: int) -> int {
    a % (MODULUS as int)
}

pub open spec fn fadd(a: int, b: int) -> int {
    fmod(a + b)
}

pub open spec fn fsub(a: int, b: int) -> int {
    fmod(a - b)
}

pub open spec fn fmul(a: int, b: int) -> int {
    fmod(a * b)
}

/// `y` is the multiplicative inverse of `a`.
pub open spec fn is_inverse(a: int, y: int) -> bool {
    0 <= y < MODULUS && fmul(a, y) == 1
}

pub open spec fn invertible(a: int) -> bool {
    exists|y: int| is_inverse(a, y)
}

/// The inverse of `a`, or zero where `a` has none.
pub open spec fn inv(a: int) -> int {
    if invertible(a) {
        choose|y: int| is_inverse(a, y)
    } else {
        0
    }
}

/// An element has at most one inverse.
pub proof fn lemma_inverse_unique(a: int, y1: int, y2: int)
    requires
        is_inverse(a, y1),
        is_inverse(a, y2),
    ensures
        y1 == y2,
{
    let m = MODULUS as int;
    lemma_mul_mod_noop_right(y1, a * y2, m);
    lemma_mul_mod_noop_left(y1 * a, y2, m);
    assert(y1 * (a * y2) == (y1 * a) * y2) by (nonlinear_arith);
    assert(a * y1 == y1 * a) by (nonlinear_arith);
    lemma_fmod_small(y1);
    lemma_fmod_small(y2);
}

/// What an inverse found by search is.
pub proof fn lemma_inv_is(a: int, y: int)
    requires
        is_inverse(a, y),
    ensures
        inv(a) == y,
        fmul(a, inv(a)) == 1,
{
    let c = choose|z: int| is_inverse(a, z);
    lemma_inverse_unique(a, c, y);
}

pub proof fn lemma_inv_range(a: int)
    ensures
        0 <= inv(a) < MODULUS,
        invertible(a) ==> fmul(a, inv(a)) == 1,
{
    if invertible(a) {
        let c = choose|z: int| is_inverse(a, z);
        lemma_inv_is(a, c);
    }
}

/// Two integers that differ by a multiple of the modulus are equal in the field.
pub proof fn lemma_congruent(a: int, b: int, k: int)
    requires
        a == b + (MODULUS as int) * k,
    ensures
        fmod(a) == fmod(b),
{
    lemma_mod_multiples_vanish(k, b, MODULUS as int);
}

/// Reduction changes a value by a multiple of the modulus.
pub proof fn lemma_reduce(a: int)
    ensures
        a == fmod(a) + (MODULUS as int) * (a / (MODULUS as int)),
        0 <= fmod(a) < MODULUS,
{
    lemma_fundamental_div_mod(a, MODULUS as int);
    lemma_mod_bound(a, MODULUS as int);
}

pub proof fn lemma_fmod_small(a: int)
    requires
        0 <= a < MODULUS,
    ensures
        fmod(a) == a,
{
    lemma_small_mod(a as nat, MODULUS as nat);
}

/// One step of the extended Euclidean algorithm keeps the coefficient congruence.
proof fn lemma_euclid_step(x: int, r0: int, r1: int, q: int, s0: int, s1: int, s2: int)
    requires
        r1 > 0,
        q == r0 / r1,
        fmul(s0, x) == fmod(r0),
        fmul(s1, x) == fmod(r1),
        s2 == fsub(s0, fmul(fmod(q), s1)),
    ensures
        fmul(s2, x) == fmod(r0 % r1),
{
    let m = MODULUS as int;
    let t = fmod(q);
    let u = fmul(t, s1);
    lemma_reduce(q);
    lemma_reduce(t * s1);
    lemma_reduce(s0 - u);
    lemma_reduce(s0 * x);
    lemma_reduce(r0);
    lemma_reduce(s1 * x);
    lemma_reduce(r1);
    lemma_fundamental_div_mod(r0, r1);
    let kq = q / m;
    let ku = (t * s1) / m;
    let k2 = (s0 - u) / m;
    let c0 = (s0 * x) / m - r0 / m;
    let c1 = (s1 * x) / m - r1 / m;
    let r2 = r0 % r1;
    assert(s0 * x == r0 + m * c0);
    assert(s1 * x == r1 + m * c1);
    let e1 = kq * (s1 * x);
    let e2 = ku * x;
    let e3 = k2 * x;
    let e4 = q * c1;
    assert(s2 * x == s0 * x - u * x - m * e3) by (nonlinear_arith)
        requires
            s0 - u == s2 + m * k2,
            e3 == k2 * x,
    ;
    assert(u * x == t * s1 * x - m * e2) by (nonlinear_arith)
        requires
            t * s1 == u + m * ku,
            e2 == ku * x,
    ;
    assert(t * s1 * x == q * (s1 * x) - m * e1) by (nonlinear_arith)
        requires
            q == t + m * kq,
            e1 == kq * (s1 * x),
    ;
    assert(q * (s1 * x) == q * r1 + m * e4) by (nonlinear_arith)
        requires
            s1 * x == r1 + m * c1,
            e4 == q * c1,
    ;
    assert(r1 * q == q * r1) by (nonlinear_arith);
    assert(s2 * x == r2 + m * c0 - m * e4 + m * e1 + m * e2 - m * e3);
    assert(m * c0 - m * e4 + m * e1 + m * e2 - m * e3 == m * (c0 - e4 + e1 + e2 - e3))
        by (nonlinear_arith);
    lemma_congruent(s2 * x, r2, c0 - e4 + e1 + e2 - e3);
}

/// A common divisor of `x` and the modulus other than one rules out an inverse of `x`.
proof fn lemma_common_divisor_blocks_inverse(x: int, d: int, a: int, b: int)
    requires
        d > 1,
        x == a * d,
        MODULUS as int == b * d,
    ensures
        !invertible(x),
{
    if invertible(x) {
        let y = choose|y: int| is_inverse(x, y);
        let m = MODULUS as int;
        lemma_reduce(x * y);
        let k = (x * y) / m;
        assert(d * (a * y - b * k) == 1) by (nonlinear_arith)
            requires
                x * y == 1 + m * k,
                x == a * d,
                m == b * d,
        ;
        assert(false) by (nonlinear_arith)
            requires
                d > 1,
                d * (a * y - b * k) == 1,
        ;
    }
}

/// A field element, held reduced below the modulus.
#[derive(Clone, Copy, PartialEq, Eq, Structural, Debug)]
pub struct Scalar {
    pub v: u64,
}

impl Scalar {
    pub open spec fn wf(self) -> bool {
        self.v < MODULUS
    }

    pub open spec fn val(self) -> int {
        self.v as int
    }

    pub fn zero() -> (r: Scalar)
        ensures
            r.wf(),
            r.val() == 0,
    {
        Scalar { v: 0 }
    }

    pub fn one() -> (r: Scalar)
        ensures
            r.wf(),
            r.val() == 1,
    {
        Scalar { v: 1 }
    }

    /// The residue of an unsigned integer.
    pub fn from_u64(x: u64) -> (r: Scalar)
        ensures
            r.wf(),
            r.val() == fmod(x as int),
    {
        proof {
            lemma_reduce(x as int);
        }
        Scalar { v: x % MODULUS }
    }

    /// `true` is one, `false` is zero.
    pub fn from_bool(b: bool) -> (r: Scalar)
        ensures
            r.wf(),
            r.val() == (if b { 1int } else { 0int }),
    {
        if b {
            Scalar { v: 1 }
        } else {
            Scalar { v: 0 }
        }
    }

    pub fn add(self, o: Scalar) -> (r: Scalar)
        requires
            self.wf(),
            o.wf(),
        ensures
            r.wf(),
            r.val() == fadd(self.val(), o.val()),
    {
        proof {
            lemma_reduce(self.val() + o.val());
        }
        let s: u64 = self.v + o.v;
        if s >= MODULUS {
            proof {
                lemma_congruent(self.val() + o.val(), s - MODULUS, 1);
                lemma_fmod_small(s - MODULUS);
            }
            Scalar { v: s - MODULUS }
        } else {
            proof {
                lemma_fmod_small(s as int);
            }
            Scalar { v: s }
        }
    }

    pub fn sub(self, o: Scalar) -> (r: Scalar)
        requires
            self.wf(),
            o.wf(),
        ensures
            r.wf(),
            r.val() == fsub(self.val(), o.val()),
    {
        if self.v >= o.v {
            proof {
                lemma_fmod_small(self.val() - o.val());
            }
            Scalar { v: self.v - o.v }
        } else {
            let d: u64 = MODULUS - o.v + self.v;
            proof {
                lemma_congruent(d as int, self.val() - o.val(), 1);
                lemma_fmod_small(d as int);
            }
            Scalar { v: d }
        }
    }

    pub fn neg(self) -> (r: Scalar)
        requires
            self.wf(),
        ensures
            r.wf(),
            r.val() == fsub(0, self.val()),
    {
        Scalar::zero().sub(self)
    }

    /// The multiplicative inverse where there is one, and zero where there is none.
    pub fn inverse_or_zero(self) -> (r: Scalar)
        requires
            self.wf(),
        ensures
            r.wf(),
            r.val() == inv(self.val()),
            invertible(self.val()) ==> fmul(self.val(), r.val()) == 1,
    {
        let x: u64 = self.v;
        let mut r0: u64 = MODULUS;
        let mut r1: u64 = x;
        let mut s0: Scalar = Scalar::zero();
        let mut s1: Scalar = Scalar::one();
        let ghost mut a0: int = 0;
        let ghost mut a1: int = 1;
        let ghost mut b0: int = 1;
        let ghost mut b1: int = 0;
        proof {
            lemma_fmod_small(x as int);
            lemma_fmod_small(0);
            lemma_congruent(MODULUS as int, 0, 1);
        }
        while r1 != 0
            invariant
                0 < r0,
                s0.wf(),
                s1.wf(),
                fmul(s0.val(), x as int) == fmod(r0 as int),
                fmul(s1.val(), x as int) == fmod(r1 as int),
                x as int == a0 * r0 + a1 * r1,
                MODULUS as int == b0 * r0 + b1 * r1,
            decreases r1,
        {
            let q: u64 = r0 / r1;
            let r2: u64 = r0 % r1;
            let s2: Scalar = s0.sub(Scalar::from_u64(q).mul(s1));
            proof {
                lemma_euclid_step(x as int, r0 as int, r1 as int, q as int, s0.val(), s1.val(), s2.val());
                lemma_fundamental_div_mod(r0 as int, r1 as int);
                let na0 = a0 * q + a1;
                let nb0 = b0 * q + b1;
                assert(x as int == na0 * r1 + a0 * r2) by (nonlinear_arith)
                    requires
                        na0 == a0 * q + a1,
                        x as int == a0 * r0 + a1 * r1,
                        r0 == r1 * q + r2,
                ;
                assert(MODULUS as int == nb0 * r1 + b0 * r2) by (nonlinear_arith)
                    requires
                        nb0 == b0 * q + b1,
                        MODULUS as int == b0 * r0 + b1 * r1,
                        r0 == r1 * q + r2,
                ;
                a1 = a0;
                a0 = na0;
                b1 = b0;
                b0 = nb0;
            }
            r0 = r1;
            r1 = r2;
            s0 = s1;
            s1 = s2;
        }
        if r0 == 1 {
            proof {
                lemma_fmod_small(1);
                assert((x as int) * s0.val() == s0.val() * (x as int)) by (nonlinear_arith);
                assert(is_inverse(x as int, s0.val()));
                lemma_inv_is(x as int, s0.val());
            }
            s0
        } else {
            proof {
                lemma_common_divisor_blocks_inverse(x as int, r0 as int, a0, b0);
            }
            Scalar::zero()
        }
    }

    pub fn mul(self, o: Scalar) -> (r: Scalar)
        requires
            self.wf(),
            o.wf(),
        ensures
            r.wf(),
            r.val() == fmul(self.val(), o.val()),
    {
        let a: u128 = self.v as u128;
        let b: u128 = o.v as u128;
        assert(a * b <= 0x0400_0000_0000_0000_0000_0000_0000_0000u128) by (nonlinear_arith)
            requires
                a < 0x2000_0000_0000_0000u128,
                b < 0x2000_0000_0000_0000u128,
        ;
        let p: u128 = a * b;
        let r: u128 = p % (MODULUS as u128);
        proof {
            lemma_reduce(a * b);
        }
        Scalar { v: r as u64 }
    }
}

} // verus!
