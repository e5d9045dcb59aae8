//! Threshold secret sharing over GF(256): any `threshold` distinct shares
//! reconstruct the secret by Lagrange interpolation at zero.
//!
//! The exec functions are proved equal to spec-level polynomial
//! evaluation and interpolation over the field operations of `gf256`.

use vstd::prelude::*;

use crate::crypto::random_byte;
use crate::errors::DkgError;
use crate::gf256::{spec_gf_mul, spec_gf_inv, gf_mul, gf_add, gf_inv, lemma_gf_mul_nonzero};

verus! {

/// One share: an evaluation point and one byte per secret byte.
#[derive(Debug, Clone, PartialEq, Eq)]
pub struct Share {
    pub x: u8,
    pub data: Vec<u8>,
}

/// Evaluation of the polynomial with the given coefficients at `x`,
/// low-order coefficient first, folded left over rising powers.
pub open spec fn spec_eval_prefix(coeffs: Seq<u8>, x: u8, i: int) -> (u8, u8)
    decreases i,
{
    if i <= 0 {
        (0u8, 1u8)
    } else {
        let prev = spec_eval_prefix(coeffs, x, i - 1);
        (prev.0 ^ spec_gf_mul(coeffs[i - 1], prev.1), spec_gf_mul(prev.1, x))
    }
}

/// The value of the polynomial at `x`.
pub open spec fn spec_eval_poly(coeffs: Seq<u8>, x: u8) -> u8 {
    spec_eval_prefix(coeffs, x, coeffs.len() as int).0
}

/// The Lagrange numerator of term `j`: the product of the other
/// evaluation points among the first `k`.
pub open spec fn spec_num_prefix(xs: Seq<u8>, j: int, k: int) -> u8
    decreases k,
{
    if k <= 0 {
        1u8
    } else if k - 1 == j {
        spec_num_prefix(xs, j, k - 1)
    } else {
        spec_gf_mul(spec_num_prefix(xs, j, k - 1), xs[k - 1])
    }
}

/// The Lagrange denominator of term `j`: the product of the differences
/// of point `j` from the other points among the first `k`.
pub open spec fn spec_den_prefix(xs: Seq<u8>, j: int, k: int) -> u8
    decreases k,
{
    if k <= 0 {
        1u8
    } else if k - 1 == j {
        spec_den_prefix(xs, j, k - 1)
    } else {
        spec_gf_mul(spec_den_prefix(xs, j, k - 1), xs[j] ^ xs[k - 1])
    }
}

/// The Lagrange coefficient of term `j` at zero.
pub open spec fn spec_lagrange(xs: Seq<u8>, j: int, t: int) -> u8 {
    spec_gf_mul(spec_num_prefix(xs, j, t), spec_gf_inv(spec_den_prefix(xs, j, t)))
}

/// The interpolated value at zero over the first `j` of `t` terms.
pub open spec fn spec_interp_prefix(xs: Seq<u8>, ys: Seq<u8>, t: int, j: int) -> u8
    decreases j,
{
    if j <= 0 {
        0u8
    } else {
        spec_interp_prefix(xs, ys, t, j - 1) ^ spec_gf_mul(
            spec_lagrange(xs, j - 1, t),
            ys[j - 1],
        )
    }
}

/// One reconstructed secret byte from the first `t` shares.
pub open spec fn spec_secret_byte(xs: Seq<u8>, ys: Seq<u8>, t: int) -> u8 {
    spec_interp_prefix(xs, ys, t, t)
}

/// A Lagrange denominator over distinct evaluation points is nonzero:
/// each factor is a XOR of two distinct bytes, and the field has no zero
/// divisors.
pub proof fn lemma_den_prefix_nonzero(xs: Seq<u8>, j: int, k: int)
    requires
        0 <= j < xs.len(),
        0 <= k <= xs.len(),
        forall|p: int, q: int| 0 <= p < q < xs.len() ==> xs[p] != xs[q],
    ensures
        spec_den_prefix(xs, j, k) != 0,
    decreases k,
{
    if k <= 0 {
    } else if k - 1 == j {
        lemma_den_prefix_nonzero(xs, j, k - 1);
    } else {
        lemma_den_prefix_nonzero(xs, j, k - 1);
        let u = xs[j];
        let v = xs[k - 1];
        if j < k - 1 {
            assert(xs[j] != xs[k - 1]);
        } else {
            assert(xs[k - 1] != xs[j]);
        }
        assert(u ^ v != 0) by (bit_vector)
            requires
                u != v,
        ;
        lemma_gf_mul_nonzero(spec_den_prefix(xs, j, k - 1), u ^ v);
    }
}

/// The shares are the evaluations of per-byte polynomials with the given
/// coefficients, whose constant terms spell the secret.
pub open spec fn shares_from_coeffs(
    shares: Seq<Share>,
    coeffs: Seq<Seq<u8>>,
    secret: Seq<u8>,
    threshold: u8,
) -> bool {
    &&& coeffs.len() == secret.len()
    &&& (forall|idx: int|
        0 <= idx < secret.len() ==> (#[trigger] coeffs[idx].len() == threshold && coeffs[idx][0]
            == secret[idx]))
    &&& (forall|j: int, idx: int|
        #![trigger shares[j].data@[idx]]
        0 <= j < shares.len() && 0 <= idx < secret.len() ==> shares[j].data@[idx]
            == spec_eval_poly(coeffs[idx], (j + 1) as u8))
}

/// Evaluate a polynomial at `x`.
fn eval_poly(coeffs: &Vec<u8>, x: u8) -> (r: u8)
    ensures
        r == spec_eval_poly(coeffs@, x),
{
    let mut y: u8 = 0;
    let mut power: u8 = 1;
    let mut i: usize = 0;
    while i < coeffs.len()
        invariant
            i <= coeffs@.len(),
            (y, power) == spec_eval_prefix(coeffs@, x, i as int),
        decreases coeffs@.len() - i,
    {
        y = y ^ gf_mul(coeffs[i], power);
        power = gf_mul(power, x);
        i = i + 1;
    }
    y
}

/// Cut `share_count` shares of a secret, any `threshold` of which
/// reconstruct it.
///
/// The threshold must lie between one and the share count; then each
/// share `j` carries the point `j + 1` and, for every secret byte, the
/// evaluation there of a polynomial with random high coefficients whose
/// constant term is that byte.
pub fn generate_shares(secret: &[u8], threshold: u8, share_count: u8) -> (r: Result<
    Vec<Share>,
    DkgError,
>)
    ensures
        r is Ok <==> 1 <= threshold <= share_count,
        r matches Ok(shares) ==> shares@.len() == share_count && (forall|j: int| #![trigger shares@[j]]
            0 <= j < share_count ==> (shares@[j].x == j + 1 && shares@[j].data@.len()
                == secret@.len())) && (exists|coeffs: Seq<Seq<u8>>| #[trigger] shares_from_coeffs(
            shares@,
            coeffs,
            secret@,
            threshold,
        )),
{
    if threshold == 0 || threshold > share_count {
        return Err(DkgError::InvalidThreshold);
    }
    let mut coeffs: Vec<Vec<u8>> = Vec::new();
    let mut idx: usize = 0;
    while idx < secret.len()
        invariant
            idx <= secret@.len(),
            threshold >= 1,
            coeffs.deep_view().len() == idx,
            forall|t: int| 0 <= t < idx ==> (#[trigger] coeffs.deep_view()[t].len() == threshold
                && coeffs.deep_view()[t][0] == secret@[t]),
        decreases secret@.len() - idx,
    {
        let mut poly: Vec<u8> = Vec::new();
        poly.push(secret[idx]);
        let mut c: usize = 1;
        while c < threshold as usize
            invariant
                1 <= c <= threshold,
                poly@.len() == c,
                poly@[0] == secret@[idx as int],
            decreases threshold as int - c,
        {
            poly.push(random_byte());
            c = c + 1;
        }
        let ghost cv0 = coeffs.deep_view();
        coeffs.push(poly);
        idx = idx + 1;
        proof {
            assert(coeffs.deep_view() =~~= cv0.push(poly@));
        }
    }
    let mut shares: Vec<Share> = Vec::new();
    let mut j: usize = 0;
    while j < share_count as usize
        invariant
            j <= share_count,
            threshold >= 1,
            coeffs.deep_view().len() == secret@.len(),
            forall|t: int| 0 <= t < secret@.len() ==> (#[trigger] coeffs.deep_view()[t].len()
                == threshold && coeffs.deep_view()[t][0] == secret@[t]),
            shares@.len() == j,
            forall|s: int| #![trigger shares@[s]]
                0 <= s < j ==> (shares@[s].x == s + 1 && shares@[s].data@.len() == secret@.len()
                    && (forall|idx2: int|
                    0 <= idx2 < secret@.len() ==> #[trigger] shares@[s].data@[idx2]
                        == spec_eval_poly(coeffs.deep_view()[idx2], (s + 1) as u8))),
        decreases share_count as int - j,
    {
        let x: u8 = (j as u8) + 1;
        let mut data: Vec<u8> = Vec::new();
        let mut idx2: usize = 0;
        while idx2 < coeffs.len()
            invariant
                idx2 <= coeffs@.len(),
                coeffs.deep_view().len() == coeffs@.len(),
                data@.len() == idx2,
                forall|t: int| 0 <= t < idx2 ==> #[trigger] data@[t] == spec_eval_poly(
                    coeffs.deep_view()[t],
                    x,
                ),
            decreases coeffs@.len() - idx2,
        {
            proof {
                assert(coeffs@[idx2 as int]@ == coeffs.deep_view()[idx2 as int]);
            }
            let y = eval_poly(&coeffs[idx2], x);
            data.push(y);
            idx2 = idx2 + 1;
        }
        shares.push(Share { x, data });
        j = j + 1;
    }
    proof {
        assert(shares_from_coeffs(shares@, coeffs.deep_view(), secret@, threshold));
    }
    Ok(shares)
}

/// Reconstruct a secret from its first `threshold` shares by Lagrange
/// interpolation at zero.
///
/// The threshold must not exceed the share count and the evaluation
/// points of the first `threshold` shares must be distinct; then, with
/// the share payloads of one length, reconstruction succeeds and each
/// secret byte is exactly the interpolation of that byte column.
pub fn reconstruct_secret(shares: &[Share], threshold: u8) -> (r: Result<Vec<u8>, DkgError>)
    ensures
        (threshold == 0 || threshold > shares@.len()) ==> r == Err::<Vec<u8>, DkgError>(
            DkgError::InsufficientShares,
        ),
        (1 <= threshold <= shares@.len() && (forall|p: int, q: int|
            #![trigger shares@[p].x, shares@[q].x]
            0 <= p < q < threshold ==> shares@[p].x != shares@[q].x) && (forall|s: int|
            0 <= s < threshold ==> #[trigger] shares@[s].data@.len()
                == shares@[0].data@.len())) ==> r is Ok,
        r matches Ok(v) ==> ({
            let t = threshold as int;
            let xs = Seq::new(t as nat, |j: int| shares@[j].x);
            &&& 1 <= t <= shares@.len()
            &&& (forall|a: int, b: int| 0 <= a < b < t ==> xs[a] != xs[b])
            &&& v@.len() == shares@[0].data@.len()
            &&& (forall|idx: int| #![trigger v@[idx]]
                0 <= idx < v@.len() ==> v@[idx] == spec_secret_byte(
                    xs,
                    Seq::new(t as nat, |j: int| shares@[j].data@[idx]),
                    t,
                ))
        }),
        r matches Err(e) ==> (e == DkgError::InsufficientShares || e == DkgError::DuplicateShare
            || e == DkgError::NonInvertible),
{
    let t: usize = threshold as usize;
    if threshold == 0 || t > shares.len() {
        return Err(DkgError::InsufficientShares);
    }
    let ghost xs = Seq::new(t as nat, |j: int| shares@[j].x);
    let mut a: usize = 0;
    while a < t
        invariant
            a <= t,
            1 <= t <= shares@.len(),
            t == threshold,
            xs == Seq::new(t as nat, |j: int| shares@[j].x),
            forall|p: int, q: int| 0 <= p < a && p < q < t ==> xs[p] != xs[q],
        decreases t - a,
    {
        let mut b: usize = a + 1;
        while b < t
            invariant
                a < b <= t,
                a < t,
                1 <= t <= shares@.len(),
                t == threshold,
                xs == Seq::new(t as nat, |j: int| shares@[j].x),
                forall|q: int| a < q < b ==> xs[a as int] != xs[q],
            decreases t - b,
        {
            if shares[a].x == shares[b].x {
                return Err(DkgError::DuplicateShare);
            }
            b = b + 1;
        }
        a = a + 1;
    }
    let secret_len: usize = shares[0].data.len();
    let mut result: Vec<u8> = Vec::new();
    let mut byte_idx: usize = 0;
    while byte_idx < secret_len
        invariant
            byte_idx <= secret_len,
            1 <= t <= shares@.len(),
            t == threshold,
            secret_len == shares@[0].data@.len(),
            xs == Seq::new(t as nat, |j: int| shares@[j].x),
            forall|p: int, q: int| #![trigger xs[p], xs[q]] 0 <= p < q < t ==> xs[p] != xs[q],
            result@.len() == byte_idx,
            forall|idx: int| #![trigger result@[idx]]
                0 <= idx < byte_idx ==> result@[idx] == spec_secret_byte(
                    xs,
                    Seq::new(t as nat, |j: int| shares@[j].data@[idx]),
                    t as int,
                ),
        decreases secret_len - byte_idx,
    {
        let ghost ys = Seq::new(t as nat, |j: int| shares@[j].data@[byte_idx as int]);
        let mut acc: u8 = 0;
        let mut j: usize = 0;
        while j < t
            invariant
                j <= t,
                1 <= t <= shares@.len(),
                t == threshold,
                byte_idx < secret_len,
                secret_len == shares@[0].data@.len(),
                xs == Seq::new(t as nat, |jj: int| shares@[jj].x),
                forall|p: int, q: int| #![trigger xs[p], xs[q]] 0 <= p < q < t ==> xs[p] != xs[q],
                ys == Seq::new(t as nat, |jj: int| shares@[jj].data@[byte_idx as int]),
                acc == spec_interp_prefix(xs, ys, t as int, j as int),
            decreases t - j,
        {
            let mut num: u8 = 1;
            let mut den: u8 = 1;
            let mut k: usize = 0;
            while k < t
                invariant
                    k <= t,
                    j < t,
                    t <= shares@.len(),
                    xs == Seq::new(t as nat, |jj: int| shares@[jj].x),
                    num == spec_num_prefix(xs, j as int, k as int),
                    den == spec_den_prefix(xs, j as int, k as int),
                decreases t - k,
            {
                if k != j {
                    num = gf_mul(num, shares[k].x);
                    den = gf_mul(den, gf_add(shares[j].x, shares[k].x));
                }
                k = k + 1;
            }
            let den_inv = match gf_inv(den) {
                Ok(v) => v,
                Err(e) => {
                    proof {
                        lemma_den_prefix_nonzero(xs, j as int, t as int);
                        assert(false);
                    }
                    return Err(e);
                },
            };
            let lagrange_at_zero = gf_mul(num, den_inv);
            if byte_idx >= shares[j].data.len() {
                return Err(DkgError::InsufficientShares);
            }
            acc = acc ^ gf_mul(lagrange_at_zero, shares[j].data[byte_idx]);
            j = j + 1;
        }
        result.push(acc);
        byte_idx = byte_idx + 1;
    }
    Ok(result)
}

} // verus!
