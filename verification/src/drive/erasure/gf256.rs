//! Byte arithmetic in GF(2^8) with the reduction polynomial 0x11B.

use vstd::prelude::*;

verus! {

/// Multiplication by `x` in GF(2^8): shift left, reducing by 0x1B when
/// the top bit falls out.
pub open spec fn xtime(a: u8) -> u8 {
    if a & 0x80u8 != 0 { (a << 1u8) ^ 0x1Bu8 } else { a << 1u8 }
}

pub proof fn lemma_halve(b: u8)
    by (bit_vector)
    ensures
        b >> 1u8 == b / 2,
        b & 1u8 == b % 2,
{
}

pub proof fn lemma_xor_facts(p: u8, a: u8, r: u8)
    by (bit_vector)
    ensures
        p ^ (a ^ r) == (p ^ a) ^ r,
        p ^ 0u8 == p,
        0u8 ^ p == p,
{
}

/// Product in GF(2^8): the xor of `a * x^k` over the set bits `k` of `b`.
pub open spec fn gf_mul(a: u8, b: u8) -> u8
    decreases b,
{
    if b == 0 {
        0u8
    } else {
        proof {
            lemma_halve(b);
        }
        let rest = gf_mul(xtime(a), b >> 1u8);
        if b & 1u8 != 0 { a ^ rest } else { rest }
    }
}

/// Multiply two elements of GF(2^8).
pub fn multiply(a: u8, b: u8) -> (r: u8)
    ensures
        r == gf_mul(a, b),
{
    let mut p = 0u8;
    let mut a = a;
    let mut b = b;
    let ghost a0 = a;
    let ghost b0 = b;
    proof {
        lemma_xor_facts(gf_mul(a, b), 0u8, 0u8);
        vstd::arithmetic::power2::lemma2_to64();
    }
    let mut i: u8 = 0;
    while i < 8
        invariant
            i <= 8,
            p ^ gf_mul(a, b) == gf_mul(a0, b0),
            (b as nat) < vstd::arithmetic::power2::pow2((8 - i) as nat),
        decreases 8 - i,
    {
        let ghost pp = p;
        let ghost aa = a;
        let ghost bb = b;
        proof {
            lemma_halve(bb);
            lemma_xor_facts(pp, aa, gf_mul(xtime(aa), bb / 2));
            vstd::arithmetic::power2::lemma_pow2_unfold((8 - i) as nat);
        }
        if b & 1 != 0 {
            p ^= a;
        }
        let hi_bit = a & 0x80;
        a = a << 1;
        if hi_bit != 0 {
            a ^= 0x1B;
        }
        b >>= 1;
        assert(a == xtime(aa));
        i = i + 1;
    }
    proof {
        vstd::arithmetic::power2::lemma2_to64();
        lemma_xor_facts(p, 0u8, 0u8);
    }
    p
}

/// Position of the highest set bit (0 for 0).
pub open spec fn high_bit(x: u8) -> u8 {
    if x == 0 { 0u8 } else { (7 - vstd::std_specs::bits::u8_leading_zeros(x)) as u8 }
}

/// The quotient that `divide` computes: while `a` is below 0x80 and not
/// smaller than `b`, set the bit of the degree difference and cancel the
/// top bit of `a` with `b` shifted by that difference.
pub open spec fn gf_div(a: u8, b: u8) -> u8
    decreases a,
{
    if a & 0x80u8 != 0 || a < b || b == 0 {
        0u8
    } else {
        let s = (high_bit(a) - high_bit(b)) as u8;
        let next = a ^ (b << s);
        if next < a { gf_div(next, b) | (1u8 << s) } else { 0u8 }
    }
}

proof fn lemma_bits_step(a: u8, b: u8, ka: u8, kb: u8)
    by (bit_vector)
    requires
        ka < 8,
        kb < 8,
        (a >> ka) & 1u8 != 0u8,
        a >> ((ka + 1) as u8) == 0u8,
        (b >> kb) & 1u8 != 0u8,
        b >> ((kb + 1) as u8) == 0u8,
        a < 128,
        a >= b,
    ensures
        kb <= ka,
        (a ^ (b << ((ka - kb) as u8))) < a,
{
}

proof fn lemma_high_bit(x: u8)
    requires
        x != 0,
    ensures
        high_bit(x) < 8,
        (x >> high_bit(x)) & 1u8 != 0u8,
        x >> ((high_bit(x) + 1) as u8) == 0u8,
{
    vstd::std_specs::bits::axiom_u8_leading_zeros(x);
}

proof fn lemma_division_step(a: u8, b: u8)
    requires
        a < 128,
        a >= b,
        b != 0,
    ensures
        high_bit(b) <= high_bit(a),
        (a ^ (b << ((high_bit(a) - high_bit(b)) as u8))) < a,
{
    lemma_high_bit(a);
    lemma_high_bit(b);
    lemma_bits_step(a, b, high_bit(a), high_bit(b));
}

proof fn lemma_or_facts(r: u8, s: u8, g: u8)
    by (bit_vector)
    ensures
        r | (g | s) == (r | s) | g,
        r | 0u8 == r,
        0u8 | r == r,
{
}

fn msb(x: u8) -> (r: bool)
    ensures
        r == (x & 0x80u8 != 0),
        r == (x >= 0x80),
{
    assert(x & 0x80u8 != 0 <==> x >= 0x80) by (bit_vector);
    x & 0x80 != 0
}

fn msb_pos(x: u8) -> (r: u8)
    ensures
        r == high_bit(x),
{
    if x == 0 {
        return 0;
    }
    proof { vstd::std_specs::bits::axiom_u8_leading_zeros(x); }
    7 - x.leading_zeros() as u8
}

/// Divide in the sense of `gf_div`. A zero divisor loops forever on a
/// dividend below 0x80, so that input is excluded.
pub fn divide(a: u8, b: u8) -> (r: u8)
    requires
        !(b == 0 && a < 0x80),
    ensures
        r == gf_div(a, b),
{
    let mut result = 0u8;
    let mut a = a;
    let ghost a0 = a;
    proof { lemma_or_facts(gf_div(a, b), 0u8, 0u8); }
    while !msb(a) && a >= b
        invariant
            !(b == 0 && a < 0x80),
            result | gf_div(a, b) == gf_div(a0, b),
        decreases a,
    {
        proof { lemma_division_step(a, b); }
        let shift = msb_pos(a) - msb_pos(b);
        let ghost g = gf_div(a ^ (b << shift), b);
        proof {
            lemma_or_facts(result, 1u8 << shift, g);
        }
        result |= 1 << shift;
        a ^= b << shift;
    }
    proof {
        lemma_or_facts(result, 0u8, 0u8);
    }
    result
}

/// Zero absorbs: `a * 0 == 0` and `0 * b == 0` in GF(2^8).
pub proof fn law_gf_mul_zero(a: u8, b: u8)
    ensures
        gf_mul(a, 0u8) == 0u8,
        gf_mul(0u8, b) == 0u8,
    decreases b,
{
    if b != 0 {
        lemma_halve(b);
        assert(xtime(0u8) == 0u8) by (bit_vector);
        law_gf_mul_zero(0u8, b >> 1u8);
        lemma_xor_facts(0u8, 0u8, 0u8);
    }
}

/// `a` when the low bit of `b` is set, else zero.
pub open spec fn bit_scaled(b: u8, a: u8) -> u8 {
    if b & 1u8 != 0 { a } else { 0u8 }
}

proof fn lemma_xor_laws(p: u8, q: u8, r: u8, t: u8)
    by (bit_vector)
    ensures
        p ^ q == q ^ p,
        (p ^ q) ^ r == p ^ (q ^ r),
        (p ^ q) ^ (r ^ t) == (p ^ r) ^ (q ^ t),
        p ^ 0u8 == p,
        0u8 ^ p == p,
{
}

proof fn lemma_bit_facts(a: u8, b: u8, c: u8)
    by (bit_vector)
    ensures
        xtime(a ^ b) == xtime(a) ^ xtime(b),
        xtime(0u8) == 0u8,
        (b ^ c) >> 1u8 == (b >> 1u8) ^ (c >> 1u8),
        bit_scaled(b ^ c, a) == bit_scaled(b, a) ^ bit_scaled(c, a),
        bit_scaled(b, a ^ c) == bit_scaled(b, a) ^ bit_scaled(b, c),
        xtime(bit_scaled(b, a)) == bit_scaled(b, xtime(a)),
        b == (b & 1u8) ^ xtime(b >> 1u8),
        bit_scaled(b, 1u8) ^ xtime(b >> 1u8) == b,
        b & 1u8 != 0u8 ==> b & 1u8 == 1u8,
        b & 1u8 == 0u8 || b & 1u8 == 1u8,
        0u8 >> 1u8 == 0u8,
        0u8 & 1u8 == 0u8,
{
}

/// Each step of the product: the low bit of `b` contributes `a`, and the
/// rest of `b` multiplies `a * x`.
proof fn lemma_gf_unfold(a: u8, b: u8)
    ensures
        gf_mul(a, b) == bit_scaled(b, a) ^ gf_mul(xtime(a), b >> 1u8),
{
    lemma_xor_laws(gf_mul(xtime(a), b >> 1u8), a, 0u8, 0u8);
    lemma_bit_facts(a, b, 0u8);
    if b == 0 {
        law_gf_mul_zero(xtime(a), 0u8);
    } else {
        lemma_halve(b);
    }
}

proof fn lemma_gf_mul_xtime(a: u8, c: u8)
    ensures
        gf_mul(xtime(a), c) == xtime(gf_mul(a, c)),
    decreases c,
{
    lemma_bit_facts(a, c, 0u8);
    if c != 0 {
        lemma_halve(c);
        lemma_gf_mul_xtime(xtime(a), c >> 1u8);
        lemma_gf_unfold(xtime(a), c);
        lemma_gf_unfold(a, c);
        lemma_bit_facts(bit_scaled(c, a), gf_mul(xtime(a), c >> 1u8), 0u8);
    }
}

proof fn lemma_gf_one_left(a: u8)
    ensures
        gf_mul(1u8, a) == a,
    decreases a,
{
    lemma_bit_facts(1u8, a, 0u8);
    if a != 0 {
        lemma_halve(a);
        lemma_gf_one_left(a >> 1u8);
        lemma_gf_unfold(1u8, a);
        lemma_gf_mul_xtime(1u8, a >> 1u8);
    }
}

proof fn lemma_gf_scaled_right(a: u8, b: u8, c: u8)
    ensures
        gf_mul(a, bit_scaled(c, b)) == bit_scaled(c, gf_mul(a, b)),
{
    if c & 1u8 == 0 {
        law_gf_mul_zero(a, 0u8);
    }
}

/// Multiplication distributes over addition (xor) in its first argument:
/// `(a1 + a2) * b == a1 * b + a2 * b` in GF(2^8).
pub proof fn law_gf_mul_distributes_left(a1: u8, a2: u8, b: u8)
    ensures
        gf_mul(a1 ^ a2, b) == gf_mul(a1, b) ^ gf_mul(a2, b),
    decreases b,
{
    lemma_xor_laws(0u8, 0u8, 0u8, 0u8);
    if b != 0 {
        lemma_halve(b);
        law_gf_mul_distributes_left(xtime(a1), xtime(a2), b >> 1u8);
        lemma_bit_facts(a1, a2, 0u8);
        lemma_bit_facts(a1, b, 0u8);
        lemma_bit_facts(a2, b, 0u8);
        assert(bit_scaled(b, a1 ^ a2) == bit_scaled(b, a1) ^ bit_scaled(b, a2)) by {
            lemma_bit_facts(a1, b, a2);
        }
        lemma_gf_unfold(a1 ^ a2, b);
        lemma_gf_unfold(a1, b);
        lemma_gf_unfold(a2, b);
        lemma_xor_laws(bit_scaled(b, a1), gf_mul(xtime(a1), b >> 1u8), bit_scaled(b, a2), gf_mul(xtime(a2), b >> 1u8));
    }
}

/// Multiplication distributes over addition (xor) in its second argument:
/// `a * (b1 + b2) == a * b1 + a * b2` in GF(2^8).
pub proof fn law_gf_mul_distributes_right(a: u8, b1: u8, b2: u8)
    ensures
        gf_mul(a, b1 ^ b2) == gf_mul(a, b1) ^ gf_mul(a, b2),
    decreases b1 as int + b2 as int,
{
    lemma_xor_laws(0u8, 0u8, 0u8, 0u8);
    if b1 as int + b2 as int > 0 {
        lemma_halve(b1);
        lemma_halve(b2);
        law_gf_mul_distributes_right(xtime(a), b1 >> 1u8, b2 >> 1u8);
        lemma_bit_facts(a, b1, b2);
        lemma_gf_unfold(a, b1 ^ b2);
        lemma_gf_unfold(a, b1);
        lemma_gf_unfold(a, b2);
        lemma_xor_laws(bit_scaled(b1, a), gf_mul(xtime(a), b1 >> 1u8), bit_scaled(b2, a), gf_mul(xtime(a), b2 >> 1u8));
    } else {
        assert(0u8 ^ 0u8 == 0u8) by (bit_vector);
    }
}

/// Multiplication is commutative: `a * b == b * a` in GF(2^8).
pub proof fn law_gf_mul_commutative(a: u8, b: u8)
    ensures
        gf_mul(a, b) == gf_mul(b, a),
    decreases b,
{
    law_gf_mul_zero(a, b);
    if b != 0 {
        lemma_halve(b);
        law_gf_mul_commutative(a, b >> 1u8);
        lemma_bit_facts(a, b, 0u8);
        lemma_gf_unfold(a, b);
        lemma_gf_mul_xtime(a, b >> 1u8);
        lemma_gf_mul_xtime(b >> 1u8, a);
        law_gf_mul_distributes_left(b & 1u8, xtime(b >> 1u8), a);
        if b & 1u8 != 0 {
            lemma_gf_one_left(a);
        } else {
            law_gf_mul_zero(a, a);
        }
    } else {
        law_gf_mul_zero(a, a);
    }
}

/// Multiplication is associative: `(a * b) * c == a * (b * c)` in GF(2^8).
pub proof fn law_gf_mul_associative(a: u8, b: u8, c: u8)
    ensures
        gf_mul(gf_mul(a, b), c) == gf_mul(a, gf_mul(b, c)),
    decreases c,
{
    if c != 0 {
        lemma_halve(c);
        let h = c >> 1u8;
        law_gf_mul_associative(a, b, h);
        let ab = gf_mul(a, b);
        let y = gf_mul(b, h);
        lemma_gf_unfold(ab, c);
        lemma_gf_mul_xtime(ab, h);
        lemma_gf_unfold(b, c);
        law_gf_mul_distributes_right(a, bit_scaled(c, b), gf_mul(xtime(b), h));
        lemma_gf_scaled_right(a, b, c);
        lemma_gf_mul_xtime(b, h);
        law_gf_mul_commutative(a, xtime(y));
        lemma_gf_mul_xtime(y, a);
        law_gf_mul_commutative(y, a);
    } else {
        law_gf_mul_zero(gf_mul(a, b), 0u8);
        law_gf_mul_zero(b, 0u8);
        law_gf_mul_zero(a, 0u8);
    }
}

/// One is neutral: `a * 1 == a` in GF(2^8).
pub proof fn law_gf_mul_one(a: u8)
    ensures
        gf_mul(a, 1u8) == a,
{
    lemma_halve(1u8);
    law_gf_mul_zero(xtime(a), 0u8);
    lemma_xor_facts(a, 0u8, 0u8);
}

} // verus!
