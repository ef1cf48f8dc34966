use vstd::arithmetic::div_mod::{
    lemma_add_mod_noop, lemma_fundamental_div_mod_converse, lemma_mod_twice, lemma_mul_mod_noop_left, lemma_mul_mod_noop_right,
};
use vstd::arithmetic::power::{
    lemma_pow0, lemma_pow_adds, lemma_pow_mod_noop, lemma_pow_multiplies, lemma_square_is_pow2,
    pow,
};
use vstd::prelude::*;

verus! {

/// The field modulus: 2^128 - 45 * 2^40 + 1.
pub const MODULUS: u128 = 0xffffffffffffffffffffd30000000001;

pub const ZERO: u128 = 0;

pub const ONE: u128 = 1;

/// The exponent `e` with `3 * e == 1 (mod MODULUS - 1)`: raising to it inverts cubing.
pub const INV_ALPHA: u128 = 226854911280625642308916371969163307691;

/// `MODULUS - 2`: raising a non-zero element to it gives its inverse.
pub const INV_EXP: u128 = 0xffffffffffffffffffffd2ffffffffff;

pub open spec fn p() -> int {
    MODULUS as int
}

/// An element of the field is a residue below the modulus.
pub open spec fn is_elem(a: u128) -> bool {
    a < MODULUS
}

pub open spec fn fadd(a: u128, b: u128) -> u128 {
    ((a as int + b as int) % p()) as u128
}

pub open spec fn fsub(a: u128, b: u128) -> u128 {
    ((a as int - b as int) % p()) as u128
}

pub open spec fn fmul(a: u128, b: u128) -> u128 {
    ((a as int * b as int) % p()) as u128
}

pub open spec fn fneg(a: u128) -> u128 {
    fsub(0, a)
}

pub open spec fn fexp(b: u128, e: u128) -> u128 {
    (pow(b as int, e as nat) % p()) as u128
}

pub open spec fn finv(a: u128) -> u128 {
    fexp(a, INV_EXP)
}

/// Addition modulo the field's prime.
pub fn add(a: u128, b: u128) -> (r: u128)
    requires
        is_elem(a),
        is_elem(b),
    ensures
        r == fadd(a, b),
        is_elem(r),
{
    if a >= MODULUS - b {
        proof {
            lemma_fundamental_div_mod_converse(a + b, p(), 1, a + b - p());
        }
        a - (MODULUS - b)
    } else {
        proof {
            lemma_fundamental_div_mod_converse(a + b, p(), 0, a + b);
        }
        a + b
    }
}

/// Subtraction modulo the field's prime.
pub fn sub(a: u128, b: u128) -> (r: u128)
    requires
        is_elem(a),
        is_elem(b),
    ensures
        r == fsub(a, b),
        is_elem(r),
{
    if a >= b {
        proof {
            lemma_fundamental_div_mod_converse(a - b, p(), 0, a - b);
        }
        a - b
    } else {
        proof {
            lemma_fundamental_div_mod_converse(a - b, p(), -1, a - b + p());
        }
        MODULUS - (b - a)
    }
}

/// Negation modulo the field's prime.
pub fn neg(a: u128) -> (r: u128)
    requires
        is_elem(a),
    ensures
        r == fneg(a),
        is_elem(r),
{
    crate::field::sub(ZERO, a)
}

proof fn lemma_mul_step(r: int, base: int, b: int, a: int, b0: int)
    requires
        p() > 0,
        b >= 0,
        (r + base * b) % p() == (a * b0) % p(),
    ensures
        ((if b % 2 == 1 { (r + base) % p() } else { r }) + ((base + base) % p()) * (b / 2)) % p()
            == (a * b0) % p(),
{
    let m = p();
    let r2 = if b % 2 == 1 { (r + base) % m } else { r };
    let rr = if b % 2 == 1 { r + base } else { r };
    let h = b / 2;
    assert(b == 2 * h + b % 2);
    assert(rr + (base + base) * h == r + base * b) by (nonlinear_arith)
        requires
            b == 2 * h + b % 2,
            rr == if b % 2 == 1 { r + base } else { r },
    ;
    lemma_mul_mod_noop_left(base + base, h, m);
    lemma_add_mod_noop(r2, (base + base) % m * h, m);
    lemma_add_mod_noop(r2, (base + base) * h, m);
    if b % 2 == 1 {
        lemma_mod_twice(r + base, m);
        lemma_add_mod_noop(r + base, (base + base) * h, m);
    }
}

/// Multiplication modulo the field's prime, by doubling and adding.
pub fn mul(a: u128, b: u128) -> (r: u128)
    requires
        is_elem(a),
        is_elem(b),
    ensures
        r == fmul(a, b),
        is_elem(r),
{
    let mut acc: u128 = 0;
    let mut base: u128 = a;
    let mut rest: u128 = b;
    while rest > 0
        invariant
            is_elem(acc),
            is_elem(base),
            (acc as int + base as int * rest as int) % p() == (a as int * b as int) % p(),
        decreases rest,
    {
        proof {
            lemma_mul_step(acc as int, base as int, rest as int, a as int, b as int);
        }
        if rest % 2 == 1 {
            acc = crate::field::add(acc, base);
        }
        base = crate::field::add(base, base);
        rest = rest / 2;
    }
    proof {
        vstd::arithmetic::div_mod::lemma_small_mod(acc as nat, p() as nat);
    }
    acc
}

proof fn lemma_exp_step(acc: int, base: int, e: nat, target: int)
    requires
        p() > 0,
        (acc * pow(base, e)) % p() == target,
    ensures
        ((if e % 2 == 1 { (acc * base) % p() } else { acc }) * pow((base * base) % p(), e / 2))
            % p() == target,
{
    let m = p();
    let h: nat = e / 2;
    let bit: nat = e % 2;
    assert(e == 2 * h + bit);
    lemma_pow_adds(base, 2 * h, bit);
    lemma_pow_multiplies(base, 2, h);
    lemma_square_is_pow2(base);
    let q = pow(base * base, h);
    assert(pow(base, 2 * h) == q);
    let acc2 = if bit == 1 { (acc * base) % m } else { acc };
    let accr = if bit == 1 { acc * base } else { acc };
    if bit == 1 {
        vstd::arithmetic::power::lemma_pow1(base);
    } else {
        lemma_pow0(base);
    }
    assert(pow(base, e) == q * pow(base, bit));
    assert(acc * pow(base, e) == accr * q) by (nonlinear_arith)
        requires
            pow(base, e) == q * pow(base, bit),
            accr == if bit == 1 { acc * base } else { acc },
            bit == 1 ==> pow(base, bit) == base,
            bit != 1 ==> pow(base, bit) == 1,
    ;
    lemma_pow_mod_noop(base * base, h, m);
    lemma_mul_mod_noop_right(acc2, pow((base * base) % m, h), m);
    lemma_mul_mod_noop_right(acc2, q, m);
    if bit == 1 {
        lemma_mul_mod_noop_left(acc * base, q, m);
    }
}

/// Exponentiation modulo the field's prime, by repeated squaring.
pub fn exp(b: u128, e: u128) -> (r: u128)
    requires
        is_elem(b),
    ensures
        r == fexp(b, e),
        is_elem(r),
{
    let mut acc: u128 = ONE;
    let mut base: u128 = b;
    let mut rest: u128 = e;
    proof {
        lemma_pow0(b as int);
    }
    while rest > 0
        invariant
            is_elem(acc),
            is_elem(base),
            (acc as int * pow(base as int, rest as nat)) % p() == pow(b as int, e as nat) % p(),
        decreases rest,
    {
        proof {
            lemma_exp_step(acc as int, base as int, rest as nat, pow(b as int, e as nat) % p());
        }
        if rest % 2 == 1 {
            acc = crate::field::mul(acc, base);
        }
        base = crate::field::mul(base, base);
        rest = rest / 2;
    }
    proof {
        lemma_pow0(base as int);
        vstd::arithmetic::div_mod::lemma_small_mod(acc as nat, p() as nat);
    }
    acc
}

/// Inverse of a field element (zero for zero).
pub fn inv(a: u128) -> (r: u128)
    requires
        is_elem(a),
    ensures
        r == finv(a),
        is_elem(r),
{
    exp(a, INV_EXP)
}

} // verus!
