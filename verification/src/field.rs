//! Arithmetic in the prime field over which every commitment, share and
//! signature of this crate is expressed.
//!
//! The modulus is the Mersenne prime `2^31 - 1`, small enough that products
//! of two reduced values fit in `u64` and large enough that the protocol's
//! evaluation-point arithmetic never wraps.

use vstd::prelude::*;

verus! {

/// The prime modulus of the model field: `2^31 - 1`.
pub const FIELD_MODULUS: u64 = 2147483647;

/// A `u64` is a field element when it is reduced modulo `FIELD_MODULUS`.
pub open spec fn is_elem(x: u64) -> bool {
    x < FIELD_MODULUS
}

/// Every element of the sequence is a reduced field element.
pub open spec fn all_elems(s: Seq<u64>) -> bool {
    forall|i: int| 0 <= i < s.len() ==> is_elem(#[trigger] s[i])
}

pub open spec fn spec_add(a: u64, b: u64) -> u64 {
    (((a as int) + (b as int)) % (FIELD_MODULUS as int)) as u64
}

pub open spec fn spec_sub(a: u64, b: u64) -> u64 {
    (((a as int) + (FIELD_MODULUS as int) - (b as int)) % (FIELD_MODULUS as int)) as u64
}

pub open spec fn spec_mul(a: u64, b: u64) -> u64 {
    (((a as int) * (b as int)) % (FIELD_MODULUS as int)) as u64
}

/// Field addition of two reduced elements.
pub fn add_elem(a: u64, b: u64) -> (r: u64)
    requires
        is_elem(a),
        is_elem(b),
    ensures
        r == spec_add(a, b),
        is_elem(r),
{
    (a + b) % FIELD_MODULUS
}

/// Field subtraction of two reduced elements.
pub fn sub_elem(a: u64, b: u64) -> (r: u64)
    requires
        is_elem(a),
        is_elem(b),
    ensures
        r == spec_sub(a, b),
        is_elem(r),
{
    (a + FIELD_MODULUS - b) % FIELD_MODULUS
}

/// Field multiplication of two reduced elements.
pub fn mul_elem(a: u64, b: u64) -> (r: u64)
    requires
        is_elem(a),
        is_elem(b),
    ensures
        r == spec_mul(a, b),
        is_elem(r),
{
    proof {
        assert((a as int) * (b as int) <= (FIELD_MODULUS - 1) as int * (FIELD_MODULUS - 1) as int)
            by (nonlinear_arith)
            requires
                a as int <= (FIELD_MODULUS - 1) as int,
                b as int <= (FIELD_MODULUS - 1) as int,
                0 <= a as int,
                0 <= b as int,
        ;
    }
    (a * b) % FIELD_MODULUS
}

/// Subtraction undoes addition: the mask-based share encryption of the
/// dealing protocol decrypts to what was encrypted.
pub proof fn lemma_sub_add_cancel(a: u64, b: u64)
    requires
        is_elem(a),
        is_elem(b),
    ensures
        spec_sub(spec_add(a, b), b) == a,
{
    let m = FIELD_MODULUS as int;
    let s = ((a as int) + (b as int)) % m;
    assert(s == spec_add(a, b) as int);
    vstd::arithmetic::div_mod::lemma_add_mod_noop(s, m - (b as int), m);
    vstd::arithmetic::div_mod::lemma_mod_twice(s, m);
    assert((s + (m - (b as int))) % m == ((a as int) + (b as int) + m - (b as int)) % m) by {
        vstd::arithmetic::div_mod::lemma_add_mod_noop((a as int) + (b as int), m - (b as int), m);
    }
    assert(((a as int) + (b as int) + m - (b as int)) % m == ((a as int) + m) % m);
    vstd::arithmetic::div_mod::lemma_mod_multiples_vanish(1, a as int, m);
    vstd::arithmetic::div_mod::lemma_small_mod(a as nat, m as nat);
}

/// Evaluation of a polynomial, given by its coefficients in ascending
/// order of degree, at a point: the committed share of the node whose
/// evaluation point it is.
pub open spec fn spec_poly_eval(coeffs: Seq<u64>, x: u64) -> u64
    decreases coeffs.len(),
{
    if coeffs.len() == 0 {
        0u64
    } else {
        spec_add(coeffs[0], spec_mul(x, spec_poly_eval(coeffs.skip(1), x)))
    }
}

/// Horner evaluation of a committed polynomial at a point.
pub fn poly_eval(coeffs: &Vec<u64>, x: u64) -> (r: u64)
    requires
        all_elems(coeffs@),
        is_elem(x),
    ensures
        r == spec_poly_eval(coeffs@, x),
        is_elem(r),
{
    let mut acc: u64 = 0;
    let mut i: usize = coeffs.len();
    while i > 0
        invariant
            i <= coeffs.len(),
            all_elems(coeffs@),
            is_elem(x),
            is_elem(acc),
            acc == spec_poly_eval(coeffs@.skip(i as int), x),
        decreases i,
    {
        i = i - 1;
        acc = add_elem(coeffs[i], mul_elem(x, acc));
        proof {
            assert(coeffs@.skip(i as int).skip(1) =~= coeffs@.skip(i as int + 1));
            assert(coeffs@.skip(i as int)[0] == coeffs@[i as int]);
        }
    }
    proof {
        assert(coeffs@.skip(0) =~= coeffs@);
    }
    acc
}

/// Digest of a message: its bytes folded into the field with radix 256.
/// The protocol signs this digest, never the raw message.
pub open spec fn spec_digest(s: Seq<u8>) -> u64
    decreases s.len(),
{
    if s.len() == 0 {
        0u64
    } else {
        spec_add(spec_mul(spec_digest(s.drop_last()), 256), s.last() as u64)
    }
}

/// Folds a message into a single field element.
pub fn digest(message: &Vec<u8>) -> (r: u64)
    ensures
        r == spec_digest(message@),
        is_elem(r),
{
    let mut acc: u64 = 0;
    let mut i: usize = 0;
    while i < message.len()
        invariant
            i <= message.len(),
            is_elem(acc),
            acc == spec_digest(message@.take(i as int)),
        decreases message.len() - i,
    {
        let b = message[i];
        acc = add_elem(mul_elem(acc, 256), b as u64);
        i = i + 1;
        proof {
            assert(message@.take(i as int).drop_last() =~= message@.take(i as int - 1));
            assert(message@.take(i as int).last() == message@[i as int - 1]);
        }
    }
    proof {
        assert(message@.take(message@.len() as int) =~= message@);
    }
    acc
}

/// Sum of a sequence of field elements.
pub open spec fn spec_sum(s: Seq<u64>) -> u64
    decreases s.len(),
{
    if s.len() == 0 {
        0u64
    } else {
        spec_add(spec_sum(s.drop_last()), s.last())
    }
}

/// Sums a vector of field elements.
pub fn sum_elems(values: &Vec<u64>) -> (r: u64)
    requires
        all_elems(values@),
    ensures
        r == spec_sum(values@),
        is_elem(r),
{
    let mut acc: u64 = 0;
    let mut i: usize = 0;
    while i < values.len()
        invariant
            i <= values.len(),
            all_elems(values@),
            is_elem(acc),
            acc == spec_sum(values@.take(i as int)),
        decreases values.len() - i,
    {
        acc = add_elem(acc, values[i]);
        i = i + 1;
        proof {
            assert(values@.take(i as int).drop_last() =~= values@.take(i as int - 1));
            assert(values@.take(i as int).last() == values@[i as int - 1]);
        }
    }
    proof {
        assert(values@.take(values@.len() as int) =~= values@);
    }
    acc
}

/// Modular exponentiation, defined by repeated multiplication.
pub open spec fn spec_pow(base: u64, exp: nat) -> u64
    decreases exp,
{
    if exp == 0 {
        1u64
    } else {
        spec_mul(base, spec_pow(base, (exp - 1) as nat))
    }
}

/// The result of `spec_pow` is always a reduced element.
pub proof fn lemma_pow_is_elem(base: u64, exp: nat)
    ensures
        is_elem(spec_pow(base, exp)),
    decreases exp,
{
    if exp == 0 {
    } else {
        lemma_pow_is_elem(base, (exp - 1) as nat);
        let m = FIELD_MODULUS as int;
        vstd::arithmetic::div_mod::lemma_mod_bound(
            (base as int) * (spec_pow(base, (exp - 1) as nat) as int),
            m,
        );
    }
}

proof fn lemma_mul_assoc(a: u64, b: u64, c: u64)
    ensures
        spec_mul(a, spec_mul(b, c)) == spec_mul(spec_mul(a, b), c),
{
    let m = FIELD_MODULUS as int;
    let ai = a as int;
    let bi = b as int;
    let ci = c as int;
    vstd::arithmetic::div_mod::lemma_mul_mod_noop_right(ai, bi * ci, m);
    vstd::arithmetic::div_mod::lemma_mul_mod_noop_left(ai * bi, ci, m);
    assert(ai * (bi * ci) == (ai * bi) * ci) by (nonlinear_arith);
}

proof fn lemma_mul_comm(a: u64, b: u64)
    ensures
        spec_mul(a, b) == spec_mul(b, a),
{
    assert((a as int) * (b as int) == (b as int) * (a as int)) by (nonlinear_arith);
}

proof fn lemma_mul_one(a: u64)
    requires
        is_elem(a),
    ensures
        spec_mul(1, a) == a,
        spec_mul(a, 1) == a,
{
    let m = FIELD_MODULUS as int;
    vstd::arithmetic::div_mod::lemma_small_mod(a as nat, m as nat);
}

proof fn lemma_pow_adds(base: u64, m: nat, n: nat)
    ensures
        spec_pow(base, m + n) == spec_mul(spec_pow(base, m), spec_pow(base, n)),
    decreases m,
{
    lemma_pow_is_elem(base, n);
    if m == 0 {
        lemma_mul_one(spec_pow(base, n));
    } else {
        lemma_pow_adds(base, (m - 1) as nat, n);
        assert(spec_pow(base, m + n) == spec_mul(base, spec_pow(base, (m + n - 1) as nat)));
        lemma_mul_assoc(base, spec_pow(base, (m - 1) as nat), spec_pow(base, n));
    }
}

proof fn lemma_pow_square(base: u64, k: nat)
    requires
        is_elem(base),
    ensures
        spec_pow(base, 2 * k) == spec_pow(spec_mul(base, base), k),
    decreases k,
{
    if k == 0 {
    } else {
        let bb = spec_mul(base, base);
        lemma_pow_square(base, (k - 1) as nat);
        assert(2 * k == 2 + 2 * (k - 1));
        lemma_pow_adds(base, 2, (2 * (k - 1)) as nat);
        assert(spec_pow(base, 1) == spec_mul(base, spec_pow(base, 0)));
        assert(spec_pow(base, 0) == 1u64);
        lemma_mul_one(base);
        assert(spec_pow(base, 1) == base);
        assert(spec_pow(base, 2) == spec_mul(base, spec_pow(base, 1)));
        assert(spec_pow(base, 2) == bb);
        assert(spec_pow(bb, k) == spec_mul(bb, spec_pow(bb, (k - 1) as nat)));
    }
}

/// Square-and-multiply exponentiation in the field.
pub fn pow_elem(base: u64, exp: u64) -> (r: u64)
    requires
        is_elem(base),
    ensures
        r == spec_pow(base, exp as nat),
        is_elem(r),
{
    let mut result: u64 = 1;
    let mut b = base;
    let mut e = exp;
    proof {
        lemma_pow_is_elem(base, exp as nat);
        lemma_mul_one(spec_pow(base, exp as nat));
    }
    while e > 0
        invariant
            is_elem(b),
            is_elem(result),
            spec_mul(result, spec_pow(b, e as nat)) == spec_pow(base, exp as nat),
        decreases e,
    {
        let ghost e0 = e as nat;
        let ghost b0 = b;
        let ghost r0 = result;
        if e % 2 == 1 {
            result = mul_elem(result, b);
            proof {
                lemma_pow_is_elem(b0, (e0 - 1) as nat);
                lemma_mul_assoc(r0, b0, spec_pow(b0, (e0 - 1) as nat));
                assert(spec_pow(b0, e0) == spec_mul(b0, spec_pow(b0, (e0 - 1) as nat)));
            }
        }
        b = mul_elem(b, b);
        e = e / 2;
        proof {
            if e0 % 2 == 1 {
                assert((e0 - 1) as nat == 2 * (e as nat));
                lemma_pow_square(b0, e as nat);
            } else {
                assert(e0 == 2 * (e as nat));
                lemma_pow_square(b0, e as nat);
            }
        }
    }
    proof {
        lemma_mul_one(result);
        assert(spec_pow(b, 0) == 1u64);
    }
    result
}

/// Multiplicative inverse of a nonzero element, by Fermat's little theorem:
/// in a prime field the inverse of `a` is `a^(p-2)`.
pub open spec fn spec_inv(a: u64) -> u64 {
    spec_pow(a, (FIELD_MODULUS - 2) as nat)
}

/// Computes the Fermat inverse of a nonzero element.
pub fn inv_elem(a: u64) -> (r: u64)
    requires
        is_elem(a),
    ensures
        r == spec_inv(a),
        is_elem(r),
{
    pow_elem(a, FIELD_MODULUS - 2)
}

/// Pointwise field addition of two equal-length coefficient vectors.
pub open spec fn zip_add(a: Seq<u64>, b: Seq<u64>) -> Seq<u64> {
    Seq::new(a.len(), |i: int| spec_add(a[i], b[i]))
}

/// The all-zero coefficient vector.
pub open spec fn zero_coeffs(n: nat) -> Seq<u64> {
    Seq::new(n, |i: int| 0u64)
}

/// Multiplication distributes over addition in the field.
pub proof fn lemma_mul_distributes_add(x: u64, p: u64, q: u64)
    ensures
        spec_mul(x, spec_add(p, q)) == spec_add(spec_mul(x, p), spec_mul(x, q)),
{
    let m = FIELD_MODULUS as int;
    let xi = x as int;
    let pi = p as int;
    let qi = q as int;
    vstd::arithmetic::div_mod::lemma_mul_mod_noop_right(xi, pi + qi, m);
    assert(xi * (pi + qi) == xi * pi + xi * qi) by (nonlinear_arith);
    vstd::arithmetic::div_mod::lemma_add_mod_noop(xi * pi, xi * qi, m);
}

/// Sums of sums regroup freely in the field.
pub proof fn lemma_add_rearrange(a: u64, b: u64, c: u64, d: u64)
    ensures
        spec_add(spec_add(a, b), spec_add(c, d)) == spec_add(spec_add(a, c), spec_add(b, d)),
{
    let m = FIELD_MODULUS as int;
    vstd::arithmetic::div_mod::lemma_add_mod_noop(
        (a as int) + (b as int),
        (c as int) + (d as int),
        m,
    );
    vstd::arithmetic::div_mod::lemma_add_mod_noop(
        (a as int) + (c as int),
        (b as int) + (d as int),
        m,
    );
}

/// Evaluation is linear: the evaluation of a pointwise sum of two
/// polynomials is the field sum of their evaluations.
pub proof fn lemma_poly_eval_add(a: Seq<u64>, b: Seq<u64>, x: u64)
    requires
        a.len() == b.len(),
    ensures
        spec_poly_eval(zip_add(a, b), x) == spec_add(spec_poly_eval(a, x), spec_poly_eval(b, x)),
    decreases a.len(),
{
    let z = zip_add(a, b);
    if a.len() == 0 {
        assert(spec_poly_eval(z, x) == 0u64);
        assert(spec_add(0u64, 0u64) == 0u64);
    } else {
        assert(z.skip(1) =~= zip_add(a.skip(1), b.skip(1)));
        lemma_poly_eval_add(a.skip(1), b.skip(1), x);
        let ea = spec_poly_eval(a.skip(1), x);
        let eb = spec_poly_eval(b.skip(1), x);
        assert(z[0] == spec_add(a[0], b[0]));
        lemma_mul_distributes_add(x, ea, eb);
        lemma_add_rearrange(a[0], b[0], spec_mul(x, ea), spec_mul(x, eb));
    }
}

/// The zero polynomial evaluates to zero everywhere.
pub proof fn lemma_poly_eval_zero(n: nat, x: u64)
    ensures
        spec_poly_eval(zero_coeffs(n), x) == 0u64,
    decreases n,
{
    if n > 0 {
        assert(zero_coeffs(n).skip(1) =~= zero_coeffs((n - 1) as nat));
        lemma_poly_eval_zero((n - 1) as nat, x);
        assert(spec_mul(x, 0u64) == 0u64) by {
            assert((x as int) * 0 == 0) by (nonlinear_arith);
        }
        assert(spec_add(0u64, 0u64) == 0u64);
    }
}

} // verus!
