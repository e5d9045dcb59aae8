//! Arithmetic in GF(256) with the AES reduction polynomial `0x1B`.
//!
//! The executable functions are proved equal to spec-level definitions of
//! the same field operations; secret sharing builds on them.

use vstd::prelude::*;

use crate::errors::DkgError;

verus! {

/// Addition in GF(256) is XOR.
pub open spec fn spec_gf_add(a: u8, b: u8) -> u8 {
    a ^ b
}

/// One carry-reducing doubling step: multiply by `x` modulo `0x11B`.
pub open spec fn spec_gf_xtime(a: u8) -> u8 {
    if a & 0x80 != 0 {
        (a << 1) ^ 0x1b
    } else {
        a << 1
    }
}

/// Russian-peasant multiplication, unrolled over the 8 bits of `b`.
pub open spec fn spec_gf_mul_rec(a: u8, b: u8, n: nat) -> u8
    decreases n,
{
    if n == 0 {
        0
    } else {
        let rest = spec_gf_mul_rec(spec_gf_xtime(a), b >> 1, (n - 1) as nat);
        if b & 1 == 1 {
            rest ^ a
        } else {
            rest
        }
    }
}

/// Multiplication in GF(256).
pub open spec fn spec_gf_mul(a: u8, b: u8) -> u8 {
    spec_gf_mul_rec(a, b, 8)
}

/// Square-and-multiply exponentiation, unrolled over the 8 bits of `exp`.
pub open spec fn spec_gf_pow_rec(base: u8, exp: u8, acc: u8, n: nat) -> u8
    decreases n,
{
    if n == 0 {
        acc
    } else {
        let acc2 = if exp & 1 == 1 {
            spec_gf_mul(acc, base)
        } else {
            acc
        };
        spec_gf_pow_rec(spec_gf_mul(base, base), exp >> 1, acc2, (n - 1) as nat)
    }
}

/// Exponentiation in GF(256).
pub open spec fn spec_gf_pow(base: u8, exp: u8) -> u8 {
    spec_gf_pow_rec(base, exp, 1, 8)
}

/// The multiplicative inverse of a nonzero element: `a^254`.
pub open spec fn spec_gf_inv(a: u8) -> u8 {
    spec_gf_pow(a, 254)
}

/// The field has no zero divisors: a product of nonzero elements is
/// nonzero.  The eight doubling steps of the multiplication are unfolded
/// into one bit-vector circuit, which the solver checks exhaustively.
pub proof fn lemma_gf_mul_nonzero(a: u8, b: u8)
    requires
        a != 0,
        b != 0,
    ensures
        spec_gf_mul(a, b) != 0,
{
    let x1 = spec_gf_xtime(a);
    let x2 = spec_gf_xtime(x1);
    let x3 = spec_gf_xtime(x2);
    let x4 = spec_gf_xtime(x3);
    let x5 = spec_gf_xtime(x4);
    let x6 = spec_gf_xtime(x5);
    let x7 = spec_gf_xtime(x6);
    let b1 = b >> 1;
    let b2 = b1 >> 1;
    let b3 = b2 >> 1;
    let b4 = b3 >> 1;
    let b5 = b4 >> 1;
    let b6 = b5 >> 1;
    let b7 = b6 >> 1;
    let m8: u8 = spec_gf_mul_rec(spec_gf_xtime(x7), b7 >> 1, 0);
    assert(m8 == 0);
    let m7: u8 = spec_gf_mul_rec(x7, b7, 1);
    assert(m7 == (if b7 & 1 == 1 {
        m8 ^ x7
    } else {
        m8
    }));
    let m6: u8 = spec_gf_mul_rec(x6, b6, 2);
    assert(m6 == (if b6 & 1 == 1 {
        m7 ^ x6
    } else {
        m7
    }));
    let m5: u8 = spec_gf_mul_rec(x5, b5, 3);
    assert(m5 == (if b5 & 1 == 1 {
        m6 ^ x5
    } else {
        m6
    }));
    let m4: u8 = spec_gf_mul_rec(x4, b4, 4);
    assert(m4 == (if b4 & 1 == 1 {
        m5 ^ x4
    } else {
        m5
    }));
    let m3: u8 = spec_gf_mul_rec(x3, b3, 5);
    assert(m3 == (if b3 & 1 == 1 {
        m4 ^ x3
    } else {
        m4
    }));
    let m2: u8 = spec_gf_mul_rec(x2, b2, 6);
    assert(m2 == (if b2 & 1 == 1 {
        m3 ^ x2
    } else {
        m3
    }));
    let m1: u8 = spec_gf_mul_rec(x1, b1, 7);
    assert(m1 == (if b1 & 1 == 1 {
        m2 ^ x1
    } else {
        m2
    }));
    let m0: u8 = spec_gf_mul_rec(a, b, 8);
    assert(m0 == (if b & 1 == 1 {
        m1 ^ a
    } else {
        m1
    }));
    assert(m0 != 0) by (bit_vector)
        requires
            a != 0,
            b != 0,
            x1 == (if a & 0x80 != 0 {
                (a << 1) ^ 0x1b
            } else {
                a << 1
            }),
            x2 == (if x1 & 0x80 != 0 {
                (x1 << 1) ^ 0x1b
            } else {
                x1 << 1
            }),
            x3 == (if x2 & 0x80 != 0 {
                (x2 << 1) ^ 0x1b
            } else {
                x2 << 1
            }),
            x4 == (if x3 & 0x80 != 0 {
                (x3 << 1) ^ 0x1b
            } else {
                x3 << 1
            }),
            x5 == (if x4 & 0x80 != 0 {
                (x4 << 1) ^ 0x1b
            } else {
                x4 << 1
            }),
            x6 == (if x5 & 0x80 != 0 {
                (x5 << 1) ^ 0x1b
            } else {
                x5 << 1
            }),
            x7 == (if x6 & 0x80 != 0 {
                (x6 << 1) ^ 0x1b
            } else {
                x6 << 1
            }),
            b1 == b >> 1,
            b2 == b1 >> 1,
            b3 == b2 >> 1,
            b4 == b3 >> 1,
            b5 == b4 >> 1,
            b6 == b5 >> 1,
            b7 == b6 >> 1,
            m8 == 0,
            m7 == (if b7 & 1 == 1 {
                m8 ^ x7
            } else {
                m8
            }),
            m6 == (if b6 & 1 == 1 {
                m7 ^ x6
            } else {
                m7
            }),
            m5 == (if b5 & 1 == 1 {
                m6 ^ x5
            } else {
                m6
            }),
            m4 == (if b4 & 1 == 1 {
                m5 ^ x4
            } else {
                m5
            }),
            m3 == (if b3 & 1 == 1 {
                m4 ^ x3
            } else {
                m4
            }),
            m2 == (if b2 & 1 == 1 {
                m3 ^ x2
            } else {
                m3
            }),
            m1 == (if b1 & 1 == 1 {
                m2 ^ x1
            } else {
                m2
            }),
            m0 == (if b & 1 == 1 {
                m1 ^ a
            } else {
                m1
            }),
    ;
    assert(spec_gf_mul(a, b) == m0);
}

/// Add two field elements.
pub fn gf_add(a: u8, b: u8) -> (r: u8)
    ensures
        r == spec_gf_add(a, b),
{
    a ^ b
}

/// Multiply two field elements.
pub fn gf_mul(a: u8, b: u8) -> (r: u8)
    ensures
        r == spec_gf_mul(a, b),
{
    let mut a_cur: u8 = a;
    let mut b_cur: u8 = b;
    let mut p: u8 = 0;
    let mut i: usize = 0;
    proof {
        assert(forall|x: u8| 0u8 ^ x == x) by (bit_vector);
    }
    while i < 8
        invariant
            i <= 8,
            spec_gf_mul(a, b) == p ^ spec_gf_mul_rec(a_cur, b_cur, (8 - i) as nat),
        decreases 8 - i,
    {
        let ghost a0 = a_cur;
        let ghost b0 = b_cur;
        let ghost p0 = p;
        let ghost n = (8 - i) as nat;
        if b_cur & 1 == 1 {
            p = p ^ a_cur;
        }
        let hi_bit_set: bool = a_cur & 0x80 != 0;
        a_cur = a_cur << 1;
        if hi_bit_set {
            a_cur = a_cur ^ 0x1b;
        }
        b_cur = b_cur >> 1;
        i = i + 1;
        proof {
            let rest = spec_gf_mul_rec(a_cur, b_cur, (n - 1) as nat);
            assert(a_cur == spec_gf_xtime(a0));
            assert(spec_gf_mul_rec(a0, b0, n) == if b0 & 1 == 1 {
                rest ^ a0
            } else {
                rest
            });
            assert(b0 & 1 == 0 || b0 & 1 == 1) by (bit_vector);
            if b0 & 1 == 1 {
                assert(p0 ^ (rest ^ a0) == (p0 ^ a0) ^ rest) by (bit_vector);
            }
        }
    }
    proof {
        assert(spec_gf_mul_rec(a_cur, b_cur, 0) == 0);
        assert(forall|x: u8| x ^ 0u8 == x) by (bit_vector);
    }
    p
}

/// Raise a field element to a power.
pub fn gf_pow(base: u8, exp: u8) -> (r: u8)
    ensures
        r == spec_gf_pow(base, exp),
{
    let mut base_cur: u8 = base;
    let mut exp_cur: u8 = exp;
    let mut res: u8 = 1;
    let mut i: usize = 0;
    while i < 8
        invariant
            i <= 8,
            spec_gf_pow(base, exp) == spec_gf_pow_rec(base_cur, exp_cur, res, (8 - i) as nat),
        decreases 8 - i,
    {
        let ghost b0 = base_cur;
        let ghost e0 = exp_cur;
        let ghost r0 = res;
        let ghost n = (8 - i) as nat;
        if exp_cur & 1 == 1 {
            res = gf_mul(res, base_cur);
        }
        base_cur = gf_mul(base_cur, base_cur);
        exp_cur = exp_cur >> 1;
        i = i + 1;
        proof {
            assert(e0 & 1 == 0 || e0 & 1 == 1) by (bit_vector);
            assert(spec_gf_pow_rec(b0, e0, r0, n) == spec_gf_pow_rec(
                spec_gf_mul(b0, b0),
                e0 >> 1,
                if e0 & 1 == 1 {
                    spec_gf_mul(r0, b0)
                } else {
                    r0
                },
                (n - 1) as nat,
            ));
        }
    }
    res
}

/// Invert a field element; zero has no inverse.
pub fn gf_inv(a: u8) -> (r: Result<u8, DkgError>)
    ensures
        a == 0 ==> (r matches Err(e) && e == DkgError::NonInvertible),
        a != 0 ==> (r matches Ok(v) && v == spec_gf_inv(a)),
{
    if a == 0 {
        Err(DkgError::NonInvertible)
    } else {
        Ok(gf_pow(a, 254))
    }
}

} // verus!
